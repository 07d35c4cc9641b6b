//! What answers, budgets and reviews keep to, whatever is asked and found.

use vstd::arithmetic::power2::*;
use vstd::prelude::*;
use vstd::string::*;

use crate::binary64::Binary64;
use crate::json::JsonView;
use crate::qa::{
    AnswerLogEntry, AnswerView, DailyCostCap, Preliminary, QaErrorView, QuestionClass,
    SourceContext,
};

verus! {

/// The places of the passages with enough confidence, in order.
proof fn confident_places(contexts: Seq<SourceContext>) -> (at: Seq<int>)
    ensures
        ({
            let confident = contexts.filter(
                |c: SourceContext| crate::qa::from_one_half(c.confidence),
            );
            &&& confident.len() == at.len()
            &&& forall|k: int|
                0 <= k < at.len() ==> 0 <= #[trigger] at[k] < contexts.len() && confident[k]
                    == contexts[at[k]] && 0x3f00_0000 <= contexts[at[k]].confidence <= 0x7f80_0000
            &&& forall|k: int, l: int| 0 <= k < l < at.len() ==> #[trigger] at[k] < #[trigger] at[l]
            &&& forall|i: int|
                0 <= i < contexts.len() && 0x3f00_0000 <= (#[trigger] contexts[i]).confidence
                    <= 0x7f80_0000 ==> at.contains(i)
        }),
    decreases contexts.len(),
{
    reveal(Seq::filter);
    let wanted = |c: SourceContext| crate::qa::from_one_half(c.confidence);
    if contexts.len() == 0 {
        Seq::empty()
    } else {
        let init = contexts.drop_last();
        let last = contexts.len() - 1;
        let before = confident_places(init);
        let some = init.filter(wanted);
        assert forall|k: int| 0 <= k < before.len() implies contexts[#[trigger] before[k]]
            == init[before[k]] by {}
        if wanted(contexts.last()) {
            let at = before.push(last);
            assert(contexts.filter(wanted) == some.push(contexts.last()));
            assert forall|i: int|
                0 <= i < contexts.len() && 0x3f00_0000 <= (#[trigger] contexts[i]).confidence
                    <= 0x7f80_0000 implies at.contains(i) by {
                if i < last {
                    assert(init[i] == contexts[i]);
                    let k = choose|k: int| 0 <= k < before.len() && before[k] == i;
                    assert(at[k] == i);
                } else {
                    assert(at[at.len() - 1] == i);
                }
            }
            at
        } else {
            assert(contexts.filter(wanted) == some);
            assert forall|i: int|
                0 <= i < contexts.len() && 0x3f00_0000 <= (#[trigger] contexts[i]).confidence
                    <= 0x7f80_0000 implies before.contains(i) by {
                assert(contexts[last] == contexts.last());
                assert(init[i] == contexts[i]);
            }
            before
        }
    }
}

/// An answer that is not handed over begins with the text of the first passage whose confidence is
/// at least one half, and that passage is the first of its sources. Nothing is answered just where
/// there is no such passage, or the question is not one to answer.
pub proof fn answers_quote_the_first_confident_passage(
    question: Seq<char>,
    class: QuestionClass,
    destination: Seq<char>,
    contexts: Seq<SourceContext>,
)
    ensures
        ({
            let a = crate::qa::answer_from(question, class, destination, contexts);
            &&& !a.escalated <==> class == QuestionClass::Answer && exists|i: int|
                0 <= i < contexts.len() && 0x3f00_0000 <= (#[trigger] contexts[i]).confidence
                    <= 0x7f80_0000
            &&& forall|first: int|
                {
                    &&& !a.escalated
                    &&& 0 <= first < contexts.len()
                    &&& 0x3f00_0000 <= (#[trigger] contexts[first]).confidence <= 0x7f80_0000
                    &&& forall|i: int|
                        0 <= i < first ==> !(0x3f00_0000 <= (#[trigger] contexts[i]).confidence
                            <= 0x7f80_0000)
                } ==> {
                    let text = contexts[first].text@;
                    &&& a.answer.len() >= text.len() && a.answer.take(text.len() as int) == text
                    &&& a.provenance.len() > 0
                    &&& a.provenance[0] == contexts[first].observation_id@
                }
        }),
{
    let at = confident_places(contexts);
    let a = crate::qa::answer_from(question, class, destination, contexts);
    let chosen = crate::qa::selected(contexts);
    if exists|i: int|
        0 <= i < contexts.len() && 0x3f00_0000 <= (#[trigger] contexts[i]).confidence
            <= 0x7f80_0000 {
        let i = choose|i: int|
            0 <= i < contexts.len() && 0x3f00_0000 <= (#[trigger] contexts[i]).confidence
                <= 0x7f80_0000;
        assert(at.contains(i));
    } else if at.len() > 0 {
        assert(0x3f00_0000 <= contexts[at[0]].confidence <= 0x7f80_0000);
    }
    assert forall|first: int|
        {
            &&& !a.escalated
            &&& 0 <= first < contexts.len()
            &&& 0x3f00_0000 <= (#[trigger] contexts[first]).confidence <= 0x7f80_0000
            &&& forall|i: int|
                0 <= i < first ==> !(0x3f00_0000 <= (#[trigger] contexts[i]).confidence
                    <= 0x7f80_0000)
        } implies {
        let text = contexts[first].text@;
        &&& a.answer.len() >= text.len() && a.answer.take(text.len() as int) == text
        &&& a.provenance.len() > 0
        &&& a.provenance[0] == contexts[first].observation_id@
    } by {
        let k = choose|k: int| 0 <= k < at.len() && at[k] == first;
        if k > 0 {
            assert(at[0] < at[k]);
        }
        assert(at[0] == first);
        assert(chosen[0] == contexts[first]);
        let text = contexts[first].text@;
        assert(a.answer.take(text.len() as int) =~= text);
    }
}

/// The sources of an answer that is not handed over are the first passages with enough confidence,
/// in the order in which they were found, three at most and all of them where there are fewer. The
/// answer closes with a line for each that names its label and its observation.
pub proof fn answers_list_their_sources_in_order(
    question: Seq<char>,
    destination: Seq<char>,
    contexts: Seq<SourceContext>,
) -> (at: Seq<int>)
    ensures
        ({
            let a = crate::qa::answer_from(question, QuestionClass::Answer, destination, contexts);
            !a.escalated ==> {
                &&& a.provenance.len() == at.len()
                &&& 1 <= at.len() <= 3
                &&& forall|k: int|
                    0 <= k < at.len() ==> 0 <= #[trigger] at[k] < contexts.len() && a.provenance[k]
                        == contexts[at[k]].observation_id@ && 0x3f00_0000
                        <= contexts[at[k]].confidence <= 0x7f80_0000
                &&& forall|k: int, l: int|
                    0 <= k < l < at.len() ==> #[trigger] at[k] < #[trigger] at[l]
                &&& forall|i: int|
                    0 <= i < contexts.len() && 0x3f00_0000 <= (#[trigger] contexts[i]).confidence
                        <= 0x7f80_0000 ==> at.contains(i) || (at.len() == 3 && at[2] < i)
                &&& a.answer == contexts[at[0]].text@
                    + "\n\n重要事項は運営者に確認してください。\n\n由来:\n"@ + crate::text::join(
                    Seq::new(
                        at.len(),
                        |k: int|
                            "- "@ + contexts[at[k]].human_label@ + " ("@
                                + contexts[at[k]].observation_id@ + ")"@,
                    ),
                    "\n"@,
                )
                &&& !a.refused
            }
        }),
{
    let all = confident_places(contexts);
    let chosen = crate::qa::selected(contexts);
    let at = if all.len() > 3 {
        all.take(3)
    } else {
        all
    };
    let a = crate::qa::answer_from(question, QuestionClass::Answer, destination, contexts);
    if !a.escalated {
        assert forall|k: int| 0 <= k < at.len() implies chosen[k] == contexts[#[trigger] at[k]] by {}
        assert forall|i: int|
            0 <= i < contexts.len() && 0x3f00_0000 <= (#[trigger] contexts[i]).confidence
                <= 0x7f80_0000 implies at.contains(i) || (at.len() == 3 && at[2] < i) by {
            let k = choose|k: int| 0 <= k < all.len() && all[k] == i;
            if k < at.len() {
                assert(at[k] == i);
            } else {
                assert(all[2] < all[k]);
            }
        }
        assert(chosen.map_values(|c: SourceContext| crate::qa::source_line(c)) =~= Seq::new(
            at.len(),
            |k: int|
                "- "@ + contexts[at[k]].human_label@ + " ("@ + contexts[at[k]].observation_id@
                    + ")"@,
        ));
    }
    at
}

/// A question that is handed over names the person to turn to, tells every passage found for one
/// that is to be escalated, and none for any other; it costs nothing, and only one that may not be
/// asked counts as refused.
pub proof fn questions_are_handed_over_with_what_was_found(
    question: Seq<char>,
    class: QuestionClass,
    destination: Seq<char>,
    contexts: Seq<SourceContext>,
)
    ensures
        ({
            let a = crate::qa::answer_from(question, class, destination, contexts);
            a.escalated ==> {
                &&& a.answer == crate::qa::OPERATOR_ESCALATION_MESSAGE@ + " 誘導先: "@ + destination
                &&& a.cost == (Binary64 { bits: 0 })
                &&& a.refused <==> class == QuestionClass::Refuse
                &&& class == QuestionClass::Escalate ==> a.provenance.len() == contexts.len()
                    && forall|i: int|
                    0 <= i < contexts.len() ==> a.provenance[i] == (
                    #[trigger] contexts[i]).observation_id@
                &&& class != QuestionClass::Escalate ==> a.provenance.len() == 0
            }
        }),
{
}

/// The characters that are charged for are those of the question and of every source, together.
pub proof fn every_source_is_priced(
    question: Seq<char>,
    contexts: Seq<SourceContext>,
    context: SourceContext,
)
    ensures
        crate::qa::priced_chars(question, Seq::<SourceContext>::empty()) == question.len(),
        crate::qa::priced_chars(question, contexts.push(context)) == crate::qa::priced_chars(
            question,
            contexts,
        ) + context.text@.len(),
        crate::qa::priced_chars(question, contexts) >= question.len(),
        crate::qa::priced_chars(question, contexts) <= u64::MAX && crate::qa::priced_chars(
            question,
            contexts,
        ) > 0 ==> crate::qa::charged_chars(question, contexts) == crate::qa::priced_chars(
            question,
            contexts,
        ),
        crate::qa::charged_chars(question, contexts) >= 1,
    decreases contexts.len(),
{
    assert(contexts.push(context).drop_last() =~= contexts);
    if contexts.len() > 0 {
        every_source_is_priced(question, contexts.drop_last(), context);
    }
}

/// What characters cost is a millionth of a dollar for each, to less than a hundred-thousandth part
/// of a millionth.
pub proof fn characters_cost_a_millionth_each(chars: nat)
    requires
        1 <= chars <= 0x1_0000_0000,
    ensures
        ({
            let dollar = pow2(1074);
            let cost = crate::binary64::units(crate::qa::cost_of(chars));
            &&& 100_000 * (1_000_000 * cost - chars * dollar) <= dollar
            &&& 100_000 * (chars * dollar - 1_000_000 * cost) <= dollar
        }),
{
    let g = pow2(1074);
    lemma_pow2_pos(1074);
    lemma2_to64();
    lemma2_to64_rest();
    crate::binary64::whole_numbers();
    crate::binary64::powers_and_millionths();
    let e = pow2(1002);
    lemma_pow2_adds(1002, 32);
    lemma_pow2_adds(1034, 20);
    lemma_pow2_adds(1054, 20);
    lemma_pow2_adds(1034, 1);
    lemma_pow2_adds(1054, 1);
    let h = pow2(1034);
    let k = pow2(1054);
    let top = 0x1_0000_0000 * g;
    let n = chars * g;
    assert(n <= top) by (nonlinear_arith)
        requires
            n == chars * g,
            chars <= 0x1_0000_0000,
            top == 0x1_0000_0000 * g,
    ;
    let count = crate::binary64::rounded(n, 1);
    crate::binary64::rounded_is_nearest(n, 1);
    crate::binary64::rounding_keeps_bounds(n, 1, count, 0x41f0_0000_0000_0000);
    crate::binary64::roundings_are_close(n, 1, count, 0x41f0_0000_0000_0000);
    assert(crate::binary64::exponent_of(0x41f0_0000_0000_0000) == 1054);
    if count < 0x41f0_0000_0000_0000 {
        crate::binary64::bits_are_in_order(count, 0x41f0_0000_0000_0000);
    }
    let u = crate::binary64::units(count);
    assert(u <= top);
    let m = crate::binary64::units(crate::qa::MILLIONTH);
    // Dollars.
    let x = u * m;
    assert(m * 0x8_0000 <= g) by {
        assert(g == e * 0x100_0000_0000_0000_0000) by {
            assert(h == e * 0x1_0000_0000);
            assert(k == h * 0x10_0000);
            assert(g == k * 0x10_0000);
        }
    }
    assert(x <= g * (0x2000 * g)) by (nonlinear_arith)
        requires
            x == u * m,
            u <= 0x1_0000_0000 * g,
            m * 0x8_0000 <= g,
            u >= 0,
            m >= 0,
            g > 0,
    ;
    let dollars = crate::binary64::rounded(x, g);
    crate::binary64::rounded_is_nearest(x, g);
    crate::binary64::rounding_keeps_bounds(x, g, dollars, 0x40c0_0000_0000_0000);
    crate::binary64::roundings_are_close(x, g, dollars, 0x40c0_0000_0000_0000);
    if dollars < 0x40c0_0000_0000_0000 {
        crate::binary64::bits_are_in_order(dollars, 0x40c0_0000_0000_0000);
    }
    let w = crate::binary64::units(dollars);
    // Millionths.
    let y = w * 1_000_000;
    assert(y <= 0x2_0000_0000 * g) by (nonlinear_arith)
        requires
            y == w * 1_000_000,
            w <= 0x2000 * g,
            g > 0,
    ;
    let millionths = crate::binary64::rounded(y, 1);
    crate::binary64::rounded_is_nearest(y, 1);
    crate::binary64::rounding_keeps_bounds(y, 1, millionths, 0x4200_0000_0000_0000);
    crate::binary64::roundings_are_close(y, 1, millionths, 0x4200_0000_0000_0000);
    let z = crate::binary64::units(millionths);
    millionths_are_near(chars, u, m, x, w, y, g, e);
    let whole = crate::binary64::nearest_whole(millionths);
    assert(whole == chars) by (nonlinear_arith)
        requires
            whole == (2 * z + g) / (2 * g),
            2 * (z - chars * g) < g,
            2 * (chars * g - z) < g,
            g > 0,
    ;
    assert(crate::binary64::exponent_of(millionths) <= 1055) by (nonlinear_arith)
        requires
            millionths <= 0x4200_0000_0000_0000,
            crate::binary64::exponent_of(millionths) == (if millionths
                < 0x10_0000_0000_0000 {
                0
            } else {
                millionths / 0x10_0000_0000_0000 - 1
            }),
    ;
    assert(crate::binary64::without_fraction(millionths) == count);
    // Dollars again.
    assert(u <= 1_000_000 * (0x2000 * g)) by (nonlinear_arith)
        requires
            u <= 0x1_0000_0000 * g,
            g > 0,
    ;
    let cost = crate::qa::cost_of(chars);
    crate::binary64::rounded_is_nearest(u, 1_000_000);
    crate::binary64::rounding_keeps_bounds(u, 1_000_000, cost, 0x40c0_0000_0000_0000);
    crate::binary64::roundings_are_close(u, 1_000_000, cost, 0x40c0_0000_0000_0000);
}

/// How far the rounded millionths lie from the characters.
proof fn millionths_are_near(
    chars: nat,
    u: nat,
    m: nat,
    x: nat,
    w: nat,
    y: nat,
    g: nat,
    e: nat,
)
    requires
        g > 0,
        e > 0,
        g == e * 0x100_0000_0000_0000_0000,
        x == u * m,
        y == w * 1_000_000,
        u <= 0x1_0000_0000 * g,
        2 * (chars * g) - 2 * u <= e * 0x10_0000_0000_0000,
        2 * u - 2 * (chars * g) <= e * 0x10_0000_0000_0000,
        1_000_000 * m <= g + 0x8_0000 * e,
        1_000_000 * m >= g - 0x8_0000 * e,
        2 * x - 2 * (g * w) <= g * (e * 0x2_0000_0000),
        2 * (g * w) - 2 * x <= g * (e * 0x2_0000_0000),
    ensures
        y - chars * g <= e * 0x40_0000_0000_0000,
        chars * g - y <= e * 0x40_0000_0000_0000,
{
    let slack = e * 0x2_0000_0000;
    // A million times the product is about the count times one.
    let t = 1_000_000 * x;
    assert(t == u * (1_000_000 * m)) by (nonlinear_arith)
        requires
            t == 1_000_000 * x,
            x == u * m,
    ;
    assert(t <= u * g + u * (0x8_0000 * e)) by (nonlinear_arith)
        requires
            t == u * (1_000_000 * m),
            1_000_000 * m <= g + 0x8_0000 * e,
            u >= 0,
    ;
    assert(t >= u * g - u * (0x8_0000 * e)) by (nonlinear_arith)
        requires
            t == u * (1_000_000 * m),
            1_000_000 * m >= g - 0x8_0000 * e,
            u >= 0,
    ;
    assert(u * (0x8_0000 * e) <= g * (e * 0x8_0000_0000_0000)) by (nonlinear_arith)
        requires
            u <= 0x1_0000_0000 * g,
            e > 0,
    ;
    assert(2 * t - 2 * (g * y) <= 1_000_000 * (g * slack)) by (nonlinear_arith)
        requires
            t == 1_000_000 * x,
            y == w * 1_000_000,
            2 * x - 2 * (g * w) <= g * slack,
    ;
    assert(2 * (g * y) - 2 * t <= 1_000_000 * (g * slack)) by (nonlinear_arith)
        requires
            t == 1_000_000 * x,
            y == w * 1_000_000,
            2 * (g * w) - 2 * x <= g * slack,
    ;
    let b = e * 0x8_0000_0000_0000;
    assert(y - u <= 500_000 * slack + b) by (nonlinear_arith)
        requires
            g > 0,
            2 * (g * y) - 2 * t <= 1_000_000 * (g * slack),
            t <= u * g + g * b,
    ;
    assert(u - y <= 500_000 * slack + b) by (nonlinear_arith)
        requires
            g > 0,
            2 * t - 2 * (g * y) <= 1_000_000 * (g * slack),
            t >= u * g - g * b,
    ;
}

/// A question is refused where it holds a word of a matter that is refused, handed over where it
/// holds a word of one that is handed over and none of the former, and answered otherwise.
pub proof fn questions_are_classed_by_their_words(question: Seq<char>)
    ensures
        crate::qa::class_of(question) == QuestionClass::Refuse <==> {
            ||| crate::text::holds_text(question, "個人間トラブル"@)
            ||| crate::text::holds_text(question, "喧嘩"@)
            ||| crate::text::holds_text(question, "ハラスメント"@)
            ||| crate::text::holds_text(question, "健康相談"@)
            ||| crate::text::holds_text(question, "病気"@)
            ||| crate::text::holds_text(question, "契約"@)
            ||| crate::text::holds_text(question, "返金"@)
            ||| crate::text::holds_text(question, "支払い"@)
            ||| crate::text::holds_text(question, "金銭"@)
        },
        crate::qa::class_of(question) != QuestionClass::Refuse ==> (crate::qa::class_of(question)
            == QuestionClass::Escalate <==> {
            ||| crate::text::holds_text(question, "本人確認"@)
            ||| crate::text::holds_text(question, "誰が"@)
            ||| crate::text::holds_text(question, "特定して"@)
            ||| crate::text::holds_text(question, "全員の誕生日"@)
            ||| crate::text::holds_text(question, "誕生日"@)
            ||| crate::text::holds_text(question, "生年月日"@)
            ||| crate::text::holds_text(question, "出身地"@)
            ||| crate::text::holds_text(question, "連絡先"@)
            ||| crate::text::holds_text(question, "メール"@)
            ||| crate::text::holds_text(question, "電話番号"@)
        }),
{
    let r = crate::qa::refuse_words();
    assert(crate::text::holds_text(question, "個人間トラブル"@) ==> crate::text::holds_text(
        question,
        r[0],
    ));
    assert(crate::text::holds_text(question, "喧嘩"@) ==> crate::text::holds_text(question, r[1]));
    assert(crate::text::holds_text(question, "ハラスメント"@) ==> crate::text::holds_text(
        question,
        r[2],
    ));
    assert(crate::text::holds_text(question, "健康相談"@) ==> crate::text::holds_text(
        question,
        r[3],
    ));
    assert(crate::text::holds_text(question, "病気"@) ==> crate::text::holds_text(question, r[4]));
    assert(crate::text::holds_text(question, "契約"@) ==> crate::text::holds_text(question, r[5]));
    assert(crate::text::holds_text(question, "返金"@) ==> crate::text::holds_text(question, r[6]));
    assert(crate::text::holds_text(question, "支払い"@) ==> crate::text::holds_text(question, r[7]));
    assert(crate::text::holds_text(question, "金銭"@) ==> crate::text::holds_text(question, r[8]));
    let e = crate::qa::escalate_words();
    assert(crate::text::holds_text(question, "本人確認"@) ==> crate::text::holds_text(
        question,
        e[0],
    ));
    assert(crate::text::holds_text(question, "誰が"@) ==> crate::text::holds_text(question, e[1]));
    assert(crate::text::holds_text(question, "特定して"@) ==> crate::text::holds_text(
        question,
        e[2],
    ));
    assert(crate::text::holds_text(question, "全員の誕生日"@) ==> crate::text::holds_text(
        question,
        e[3],
    ));
    assert(crate::text::holds_text(question, "誕生日"@) ==> crate::text::holds_text(question, e[4]));
    assert(crate::text::holds_text(question, "生年月日"@) ==> crate::text::holds_text(
        question,
        e[5],
    ));
    assert(crate::text::holds_text(question, "出身地"@) ==> crate::text::holds_text(question, e[6]));
    assert(crate::text::holds_text(question, "連絡先"@) ==> crate::text::holds_text(question, e[7]));
    assert(crate::text::holds_text(question, "メール"@) ==> crate::text::holds_text(question, e[8]));
    assert(crate::text::holds_text(question, "電話番号"@) ==> crate::text::holds_text(
        question,
        e[9],
    ));
}

/// A day is open just where the cap lies above zero and what was spent on that day lies below it;
/// what was spent on other days does not matter. A day on which nothing was spent counts as zero.
pub proof fn days_are_open_below_the_cap(budget: DailyCostCap, day: i64)
    ensures
        ({
            let spent = if budget.spent_by_day@.contains_key(day) {
                budget.spent_by_day@[day]
            } else {
                Binary64 { bits: 0 }
            };
            let zero = Binary64 { bits: 0 };
            &&& budget.fault(day) is None <==> !crate::binary64::at_least(zero, budget.cap_usd)
                && !crate::binary64::at_least(spent, budget.cap_usd)
            &&& budget.fault(day) == Some(QaErrorView::BudgetExceeded)
                <==> !crate::binary64::at_least(zero, budget.cap_usd) && crate::binary64::at_least(
                spent,
                budget.cap_usd,
            )
        }),
{
}

/// An answer that rests on passages adds what it costs to its day and to no other; one that is
/// handed over adds nothing.
pub proof fn answers_are_charged_to_their_day(
    budget: DailyCostCap,
    day: i64,
    answer: AnswerView,
    other: i64,
)
    ensures
        ({
            let after = crate::qa::charged(budget, day, answer);
            &&& answer.escalated ==> after == budget.spent_by_day@
            &&& !answer.escalated ==> after.contains_key(day) && after[day]
                == crate::binary64::plus(
                if budget.spent_by_day@.contains_key(day) {
                    budget.spent_by_day@[day]
                } else {
                    Binary64 { bits: 0 }
                },
                answer.cost,
            )
            &&& other != day ==> after.contains_key(other) == budget.spent_by_day@.contains_key(
                other,
            ) && after[other] == budget.spent_by_day@[other]
        }),
{
}

/// Something is looked up just where the question says something, the day is open and the question
/// is not refused. A day that is used up is told so before the words of the question count.
pub proof fn lookups_need_an_open_day(
    question: Seq<char>,
    budget: DailyCostCap,
    day: i64,
    destination: Seq<char>,
)
    ensures
        ({
            let told = crate::qa::preliminary(question, budget, day, destination);
            &&& told is LookUp <==> !crate::text::blank(question) && budget.fault(day) is None
                && crate::qa::class_of(question) != QuestionClass::Refuse
            &&& told matches Preliminary::LookUp(class) ==> class == crate::qa::class_of(question)
            &&& crate::text::blank(question) ==> told is Refused
            &&& !crate::text::blank(question) && budget.fault(day) == Some(
                QaErrorView::BudgetExceeded,
            ) ==> told is Final && told->Final_0.answer == crate::qa::BUDGET_LIMIT_MESSAGE@
                && told->Final_0.escalated && told->Final_0.refused
                && told->Final_0.provenance.len() == 0
            &&& told matches Preliminary::Final(a) ==> a.escalated && a.refused && a.cost == (
            Binary64 { bits: 0 }) && a.provenance.len() == 0
            &&& told is Final && budget.fault(day) is None ==> told->Final_0.answer
                == crate::qa::OPERATOR_ESCALATION_MESSAGE@ + " 誘導先: "@ + destination
        }),
{
}

/// A day holds the seconds from its midnight to the next, before 1970 as after.
pub proof fn days_hold_their_seconds(seconds: int)
    ensures
        86_400 * crate::qa::day_of(seconds) <= seconds < 86_400 * (crate::qa::day_of(seconds) + 1),
{
}

/// A token is taken just where it lets persons and the timeline be read and administers nothing.
pub proof fn tokens_read_and_do_not_administer(
    scopes: Seq<Seq<char>>,
    model: Seq<char>,
    destination: Seq<char>,
)
    ensures
        crate::qa::scopes_fault(scopes) is None <==> scopes.contains("read:persons"@)
            && scopes.contains("read:timeline"@) && !scopes.contains("admin:sync"@),
        crate::qa::service_fault(scopes, model, destination) is None <==> {
            &&& scopes.contains("read:persons"@) && scopes.contains("read:timeline"@)
            &&& !scopes.contains("admin:sync"@)
            &&& !crate::text::blank(model)
            &&& !crate::text::blank(destination)
        },
{
}

/// What is looked up is the question itself, with the two scopes that reading needs and no other.
pub proof fn lookups_ask_the_question(question: Seq<char>, scope: Seq<char>)
    ensures
        crate::qa::query_for(question).question == question,
        crate::qa::query_for(question).scopes.contains(scope) <==> scope == "read:persons"@ || scope
            == "read:timeline"@,
{
    let scopes = crate::qa::query_for(question).scopes;
    assert(scopes[0] == "read:persons"@ && scopes[1] == "read:timeline"@);
}

/// Escaping goes character by character: five characters are written as their entities, and every
/// other stays as it is.
pub proof fn texts_are_escaped_by_character(s: Seq<char>, c: char)
    ensures
        crate::qa::escaped(Seq::empty()) == Seq::<char>::empty(),
        c == '&' ==> crate::qa::escaped(s.push(c)) == crate::qa::escaped(s) + "&amp;"@,
        c == '<' ==> crate::qa::escaped(s.push(c)) == crate::qa::escaped(s) + "&lt;"@,
        c == '>' ==> crate::qa::escaped(s.push(c)) == crate::qa::escaped(s) + "&gt;"@,
        c == '"' ==> crate::qa::escaped(s.push(c)) == crate::qa::escaped(s) + "&quot;"@,
        c == '\'' ==> crate::qa::escaped(s.push(c)) == crate::qa::escaped(s) + "&#39;"@,
        c != '&' && c != '<' && c != '>' && c != '"' && c != '\'' ==> crate::qa::escaped(s.push(c))
            == crate::qa::escaped(s).push(c),
{
    assert(s.push(c).drop_last() =~= s);
    assert(crate::qa::escaped(s) + seq![c] =~= crate::qa::escaped(s).push(c));
}

proof fn stands_in(before: Seq<char>, part: Seq<char>, after: Seq<char>)
    ensures
        crate::text::holds_text(before + part + after, part),
{
    let all = before + part + after;
    assert(all.subrange(before.len() as int, before.len() as int + part.len()) =~= part);
}

/// The review of an entry shows its question, its answer, its sources and its model each under its
/// own name, the reason of a flag just where there is one, and marks an entry just where it is
/// flagged.
pub proof fn reviews_show_each_field_under_its_name(entry: AnswerLogEntry)
    ensures
        ({
            let shown = crate::qa::entry_html(entry);
            let open = if entry.flagged {
                "<article class='entry"@ + " flagged"@ + "'><h2>#"@
            } else {
                "<article class='entry"@ + ""@ + "'><h2>#"@
            };
            &&& shown.len() >= open.len() && shown.take(open.len() as int) == open
            &&& crate::text::holds_text(
                shown,
                "</h2><p><strong>Q:</strong> "@ + crate::qa::escaped(entry.question@),
            )
            &&& crate::text::holds_text(
                shown,
                "</p><p><strong>A:</strong> "@ + crate::qa::escaped(entry.answer@),
            )
            &&& crate::text::holds_text(
                shown,
                "</p><p><strong>Sources:</strong> "@ + crate::qa::escaped(
                    crate::text::join(crate::text::strings(entry.provenance_ids@), ", "@),
                ),
            )
            &&& crate::text::holds_text(
                shown,
                "</p><p><strong>Model:</strong> "@ + crate::qa::escaped(entry.model@) + " / $"@
                    + entry.cost_usd@ + "</p>"@,
            )
            &&& entry.flag_reason matches Some(reason) ==> crate::text::holds_text(
                shown,
                "<p><strong>Flag:</strong> "@ + crate::qa::escaped(reason@) + "</p></article>"@,
            )
            &&& entry.flag_reason is None ==> {
                let close = " / $"@ + entry.cost_usd@ + "</p>"@ + ""@ + "</article>"@;
                shown.len() >= close.len() && shown.skip(shown.len() - close.len()) == close
            }
        }),
{
    let shown = crate::qa::entry_html(entry);
    let open = "<article class='entry"@ + (if entry.flagged {
        " flagged"@
    } else {
        ""@
    }) + "'><h2>#"@;
    let id = crate::qa::integer_text(entry.id as int);
    let q = "</h2><p><strong>Q:</strong> "@ + crate::qa::escaped(entry.question@);
    let a = "</p><p><strong>A:</strong> "@ + crate::qa::escaped(entry.answer@);
    let s = "</p><p><strong>Sources:</strong> "@ + crate::qa::escaped(
        crate::text::join(crate::text::strings(entry.provenance_ids@), ", "@),
    );
    let m = "</p><p><strong>Model:</strong> "@ + crate::qa::escaped(entry.model@) + " / $"@
        + entry.cost_usd@ + "</p>"@;
    let f = match entry.flag_reason {
        Some(reason) => "<p><strong>Flag:</strong> "@ + crate::qa::escaped(reason@) + "</p>"@,
        None => ""@,
    };
    let end = "</article>"@;
    let head = open + id;
    grouped(
        head,
        "</h2><p><strong>Q:</strong> "@,
        crate::qa::escaped(entry.question@),
        Seq::empty(),
        Seq::empty(),
        Seq::empty(),
    );
    grouped(
        head + q,
        "</p><p><strong>A:</strong> "@,
        crate::qa::escaped(entry.answer@),
        Seq::empty(),
        Seq::empty(),
        Seq::empty(),
    );
    grouped(
        head + q + a,
        "</p><p><strong>Sources:</strong> "@,
        crate::qa::escaped(
            crate::text::join(crate::text::strings(entry.provenance_ids@), ", "@),
        ),
        Seq::empty(),
        Seq::empty(),
        Seq::empty(),
    );
    grouped(
        head + q + a + s,
        "</p><p><strong>Model:</strong> "@,
        crate::qa::escaped(entry.model@),
        " / $"@,
        entry.cost_usd@,
        "</p>"@,
    );
    assert(shown == head + q + a + s + m + f + end);
    pieces_stand_in(open, id, q, a, s, m, f, end);
    match entry.flag_reason {
        Some(reason) => {
            let line = "<p><strong>Flag:</strong> "@ + crate::qa::escaped(reason@)
                + "</p></article>"@;
            reveal_strlit("</p>");
            reveal_strlit("</article>");
            reveal_strlit("</p></article>");
            assert("</p>"@ + "</article>"@ =~= "</p></article>"@);
            assert(f + end =~= line);
        },
        None => {
            let front = "</p><p><strong>Model:</strong> "@ + crate::qa::escaped(entry.model@);
            let close = " / $"@ + entry.cost_usd@ + "</p>"@;
            assert(m =~= front + close);
            ends_with(head + q + a + s, front, close, f, end);
        },
    }
}

proof fn grouped(
    x: Seq<char>,
    a: Seq<char>,
    b: Seq<char>,
    c: Seq<char>,
    d: Seq<char>,
    e: Seq<char>,
)
    ensures
        x + a + b == x + (a + b),
        x + a + b + c + d + e == x + (a + b + c + d + e),
{
    assert(x + a + b =~= x + (a + b));
    assert(x + a + b + c + d + e =~= x + (a + b + c + d + e));
}

proof fn pieces_stand_in(
    a: Seq<char>,
    b: Seq<char>,
    c: Seq<char>,
    d: Seq<char>,
    e: Seq<char>,
    f: Seq<char>,
    g: Seq<char>,
    h: Seq<char>,
)
    ensures
        ({
            let all = a + b + c + d + e + f + g + h;
            &&& all.len() >= a.len() && all.take(a.len() as int) == a
            &&& crate::text::holds_text(all, c)
            &&& crate::text::holds_text(all, d)
            &&& crate::text::holds_text(all, e)
            &&& crate::text::holds_text(all, f)
            &&& crate::text::holds_text(all, g + h)
        }),
{
    let all = a + b + c + d + e + f + g + h;
    assert(all.take(a.len() as int) =~= a);
    stands_in(a + b, c, d + e + f + g + h);
    assert(a + b + c + (d + e + f + g + h) =~= all);
    stands_in(a + b + c, d, e + f + g + h);
    assert(a + b + c + d + (e + f + g + h) =~= all);
    stands_in(a + b + c + d, e, f + g + h);
    assert(a + b + c + d + e + (f + g + h) =~= all);
    stands_in(a + b + c + d + e, f, g + h);
    assert(a + b + c + d + e + f + (g + h) =~= all);
    stands_in(a + b + c + d + e + f, g + h, Seq::empty());
    assert(a + b + c + d + e + f + (g + h) + Seq::empty() =~= all);
}

proof fn ends_with(x: Seq<char>, a: Seq<char>, b: Seq<char>, c: Seq<char>, d: Seq<char>)
    ensures
        ({
            let all = x + (a + b) + c + d;
            let close = b + c + d;
            all.len() >= close.len() && all.skip(all.len() - close.len()) == close
        }),
{
    let all = x + (a + b) + c + d;
    let close = b + c + d;
    assert(all.skip(all.len() - close.len()) =~= close);
}

/// The reviews stand one after the other, in the order of their entries: those of two lists are
/// those of the first and then those of the second.
pub proof fn reviews_stand_in_order(first: Seq<AnswerLogEntry>, second: Seq<AnswerLogEntry>)
    ensures
        crate::qa::entries_html(first + second) == crate::qa::entries_html(first)
            + crate::qa::entries_html(second),
        first.len() == 1 ==> crate::qa::entries_html(first) == crate::qa::entry_html(first[0]),
        first.len() == 0 ==> crate::qa::entries_html(first).len() == 0,
    decreases second.len(),
{
    if first.len() == 1 {
        assert(first.drop_last() =~= Seq::empty());
        assert(crate::qa::entries_html(Seq::empty()) =~= Seq::<char>::empty());
        assert(crate::qa::entries_html(first) =~= crate::qa::entry_html(first[0]));
    }
    if second.len() == 0 {
        assert(first + second =~= first);
    } else {
        reviews_stand_in_order(first, second.drop_last());
        assert((first + second).drop_last() =~= first + second.drop_last());
        assert(crate::qa::entries_html(first + second) =~= crate::qa::entries_html(first)
            + crate::qa::entries_html(second));
    }
}

proof fn expectations_are_counted(questions: Seq<(Seq<char>, Seq<char>)>, expected: Seq<char>)
    ensures
        ({
            let found = Set::new(
                |i: int| 0 <= i < questions.len() && questions[i].1 == expected,
            );
            found.finite() && crate::qa::expecting(questions, expected) == found.len()
        }),
    decreases questions.len(),
{
    let found = Set::new(|i: int| 0 <= i < questions.len() && questions[i].1 == expected);
    if questions.len() == 0 {
        assert(found =~= Set::empty());
    } else {
        let init = questions.drop_last();
        let last = questions.len() - 1;
        expectations_are_counted(init, expected);
        let before = Set::new(|i: int| 0 <= i < init.len() && init[i].1 == expected);
        if questions[last].1 == expected {
            assert(found =~= before.insert(last));
        } else {
            assert(found =~= before);
        }
    }
}

/// A list is a golden set just where fifteen to twenty of its questions expect an answer, five to
/// ten a refusal and three to five a person, and no question expects anything else.
pub proof fn golden_sets_are_balanced(questions: Seq<(Seq<char>, Seq<char>)>)
    ensures
        crate::qa::golden_fault(questions) is None <==> {
            &&& 15 <= Set::new(
                |i: int| 0 <= i < questions.len() && questions[i].1 == "answer"@,
            ).len() <= 20
            &&& 5 <= Set::new(
                |i: int| 0 <= i < questions.len() && questions[i].1 == "refuse"@,
            ).len() <= 10
            &&& 3 <= Set::new(
                |i: int| 0 <= i < questions.len() && questions[i].1 == "escalate"@,
            ).len() <= 5
            &&& forall|i: int|
                0 <= i < questions.len() ==> (#[trigger] questions[i]).1 == "answer"@
                    || questions[i].1 == "refuse"@ || questions[i].1 == "escalate"@
        },
{
    let answer = "answer"@;
    let refuse = "refuse"@;
    let escalate = "escalate"@;
    expectations_are_counted(questions, answer);
    expectations_are_counted(questions, refuse);
    expectations_are_counted(questions, escalate);
    assert(Set::new(|i: int| 0 <= i < questions.len() && questions[i].1 == answer) =~= Set::new(
        |i: int| 0 <= i < questions.len() && questions[i].1 == "answer"@,
    ));
    assert(Set::new(|i: int| 0 <= i < questions.len() && questions[i].1 == refuse) =~= Set::new(
        |i: int| 0 <= i < questions.len() && questions[i].1 == "refuse"@,
    ));
    assert(Set::new(|i: int| 0 <= i < questions.len() && questions[i].1 == escalate) =~= Set::new(
        |i: int| 0 <= i < questions.len() && questions[i].1 == "escalate"@,
    ));
}

/// A golden set is read item by item: each question is that of its item, and what it expects is
/// what the item expects.
pub proof fn golden_sets_are_read_item_by_item(items: Seq<JsonView>)
    ensures
        crate::qa::golden_result(Some(JsonView::Array(items))) matches Ok(questions) ==> {
            &&& questions.len() == items.len()
            &&& crate::qa::golden_fault(questions) is None
            &&& forall|i: int|
                0 <= i < items.len() ==> crate::json::text_field(
                    #[trigger] items[i],
                    "question"@,
                    0,
                    2,
                ) == Some(questions[i].0) && crate::json::text_field(
                    items[i],
                    "expected"@,
                    1,
                    2,
                ) == Some(questions[i].1)
        },
{
    if crate::qa::golden_result(Some(JsonView::Array(items))) is Ok {
        let questions = crate::qa::golden_result(Some(JsonView::Array(items)))->Ok_0;
        assert forall|i: int| 0 <= i < items.len() implies crate::json::text_field(
            #[trigger] items[i],
            "question"@,
            0,
            2,
        ) == Some(questions[i].0) && crate::json::text_field(items[i], "expected"@, 1, 2) == Some(
            questions[i].1,
        ) by {
            assert(crate::qa::decoded_golden(items[i]) is Some);
        }
    }
}

/// An error of the question service is told with what it is about before its message.
pub proof fn errors_of_questions_are_told(m: Seq<char>)
    ensures
        crate::qa::qa_message(QaErrorView::InvalidConfig(m)) == Some("invalid config: "@ + m),
        crate::qa::qa_message(QaErrorView::InvalidInput(m)) == Some("invalid input: "@ + m),
        crate::qa::qa_message(QaErrorView::BudgetExceeded) == Some("budget exceeded"@),
        crate::qa::qa_message(QaErrorView::NotFound(m)) == Some("not found: "@ + m),
{
}

/// A service that cannot be set up is told what its token has too much or lacks, or what it was not
/// given.
pub proof fn refused_services_are_told(
    scopes: Seq<Seq<char>>,
    model: Seq<char>,
    destination: Seq<char>,
)
    ensures
        ({
            let told = crate::qa::service_fault(scopes, model, destination);
            let admin = scopes.contains("admin:sync"@);
            let persons = scopes.contains("read:persons"@);
            let timeline = scopes.contains("read:timeline"@);
            &&& admin ==> told == Some(
                QaErrorView::InvalidConfig("Q&A token must not include admin:sync"@),
            )
            &&& !admin && !persons ==> told == Some(
                QaErrorView::InvalidConfig("Q&A token must include "@ + "read:persons"@),
            )
            &&& !admin && persons && !timeline ==> told == Some(
                QaErrorView::InvalidConfig("Q&A token must include "@ + "read:timeline"@),
            )
            &&& !admin && persons && timeline && crate::text::blank(model) ==> told == Some(
                QaErrorView::InvalidConfig("model must be non-empty"@),
            )
            &&& !admin && persons && timeline && !crate::text::blank(model) && crate::text::blank(
                destination,
            ) ==> told == Some(
                QaErrorView::InvalidConfig("operator destination must be non-empty"@),
            )
            &&& !admin && persons && timeline && !crate::text::blank(model) && !crate::text::blank(
                destination,
            ) ==> told is None
        }),
{
}

/// A list that is no golden set is told the first kind of questions of which it has too few or too
/// many, or that one of its questions expects something else.
pub proof fn refused_golden_sets_are_told(questions: Seq<(Seq<char>, Seq<char>)>)
    ensures
        ({
            let told = crate::qa::golden_fault(questions);
            let answered = crate::qa::expecting(questions, "answer"@);
            let refused = crate::qa::expecting(questions, "refuse"@);
            let escalated = crate::qa::expecting(questions, "escalate"@);
            let a = 15 <= answered <= 20;
            let r = 5 <= refused <= 10;
            let e = 3 <= escalated <= 5;
            &&& !a ==> told == Some(
                QaErrorView::InvalidInput("golden set must include 15-20 answerable questions"@),
            )
            &&& a && !r ==> told == Some(
                QaErrorView::InvalidInput("golden set must include 5-10 refused questions"@),
            )
            &&& a && r && !e ==> told == Some(
                QaErrorView::InvalidInput("golden set must include 3-5 escalation questions"@),
            )
            &&& a && r && e && told is Some ==> told == Some(
                QaErrorView::InvalidInput(
                    "golden question expected must be answer/refuse/escalate"@,
                ),
            ) && exists|i: int|
                0 <= i < questions.len() && (#[trigger] questions[i]).1 != "answer"@
                    && questions[i].1 != "refuse"@ && questions[i].1 != "escalate"@
        }),
{
}

/// A golden question is read from an object that names both its texts, or from a list of just the
/// two.
pub proof fn golden_questions_have_two_texts(
    value: JsonView,
    question: Seq<char>,
    expected: Seq<char>,
)
    ensures
        crate::qa::decoded_golden(
            JsonView::Array(seq![JsonView::Str(question), JsonView::Str(expected)]),
        ) == Some((question, expected)),
        crate::qa::decoded_golden(
            JsonView::Array(seq![JsonView::Str(question), JsonView::Str(expected), JsonView::Null]),
        ) is None,
        value is Object && crate::json::member(value, "question"@) == Some(JsonView::Str(question))
            && crate::json::member(value, "expected"@) == Some(JsonView::Str(expected))
            ==> crate::qa::decoded_golden(value) == Some((question, expected)),
        value is Object && crate::json::member(value, "question"@) is None
            ==> crate::qa::decoded_golden(value) is None,
        value is Object && crate::json::member(value, "expected"@) is None
            ==> crate::qa::decoded_golden(value) is None,
{
}

} // verus!

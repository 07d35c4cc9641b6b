//! Questions and answers over the lake: what may be asked, what is answered, what is handed to a
//! person.

use std::collections::HashMap;

use vstd::arithmetic::power2::*;
use vstd::prelude::*;
use vstd::string::*;

use crate::binary64::{
    drop_fraction, from_whole, over_whole, product, times_whole, Binary64, INFINITY,
};
use crate::json::{json_text_field, parse_json, repeats_any_name, Json, JsonView};
use crate::text::{
    chars_of, contains_text, is_blank, join_strings, padded_text, str_eq, text2, trim,
};
use crate::time::Timestamp;

verus! {

broadcast use vstd::std_specs::hash::group_hash_axioms;

pub const READ_PERSONS_SCOPE: &'static str = "read:persons";

pub const READ_TIMELINE_SCOPE: &'static str = "read:timeline";

pub const ADMIN_SYNC_SCOPE: &'static str = "admin:sync";

pub const OPERATOR_ESCALATION_MESSAGE: &'static str =
    "この質問はチャットボットでは回答できません。重要事項は運営者に確認してください。";

pub const BUDGET_LIMIT_MESSAGE: &'static str =
    "現在応答を制限しています。重要事項は運営者に確認してください。";

/// Why a question was not answered.
#[derive(Debug, PartialEq, Eq)]
pub enum QaError {
    InvalidConfig(String),
    InvalidInput(String),
    BudgetExceeded,
    NotFound(String),
    /// The answer log failed; holds its message.
    Sqlite(String),
    /// A text is no JSON document of the expected form; holds the reader's message.
    Json(String),
}

/// What an error says; messages of the log and of the JSON reader are left out.
pub enum QaErrorView {
    InvalidConfig(Seq<char>),
    InvalidInput(Seq<char>),
    BudgetExceeded,
    NotFound(Seq<char>),
    Sqlite,
    Json,
}

impl View for QaError {
    type V = QaErrorView;

    open spec fn view(&self) -> QaErrorView {
        match *self {
            QaError::InvalidConfig(s) => QaErrorView::InvalidConfig(s@),
            QaError::InvalidInput(s) => QaErrorView::InvalidInput(s@),
            QaError::BudgetExceeded => QaErrorView::BudgetExceeded,
            QaError::NotFound(s) => QaErrorView::NotFound(s@),
            QaError::Sqlite(_) => QaErrorView::Sqlite,
            QaError::Json(_) => QaErrorView::Json,
        }
    }
}

/// The text of an error; that of the log and that of the JSON reader are not told here.
pub open spec fn qa_message(error: QaErrorView) -> Option<Seq<char>> {
    match error {
        QaErrorView::InvalidConfig(m) => Some("invalid config: "@ + m),
        QaErrorView::InvalidInput(m) => Some("invalid input: "@ + m),
        QaErrorView::BudgetExceeded => Some("budget exceeded"@),
        QaErrorView::NotFound(m) => Some("not found: "@ + m),
        QaErrorView::Sqlite => None,
        QaErrorView::Json => None,
    }
}

impl QaError {
    /// The text of the error.
    pub fn message(&self) -> (r: String)
        ensures
            qa_message(self@) matches Some(m) ==> r@ == m,
            self matches QaError::Sqlite(m) ==> r@ == "sqlite error: "@ + m@,
            self matches QaError::Json(m) ==> r@ == "json error: "@ + m@,
    {
        match self {
            QaError::InvalidConfig(m) => text2("invalid config: ", m.as_str()),
            QaError::InvalidInput(m) => text2("invalid input: ", m.as_str()),
            QaError::BudgetExceeded => "budget exceeded".to_owned(),
            QaError::NotFound(m) => text2("not found: ", m.as_str()),
            QaError::Sqlite(m) => text2("sqlite error: ", m.as_str()),
            QaError::Json(m) => text2("json error: ", m.as_str()),
        }
    }
}

fn invalid_config(message: &str) -> (r: QaError)
    ensures
        r@ == QaErrorView::InvalidConfig(message@),
{
    QaError::InvalidConfig(message.to_owned())
}

fn invalid_input(message: &str) -> (r: QaError)
    ensures
        r@ == QaErrorView::InvalidInput(message@),
{
    QaError::InvalidInput(message.to_owned())
}

/// Who asks, and what their token allows.
#[derive(Debug, PartialEq, Eq)]
pub struct QaPrincipal {
    pub name: String,
    pub scopes: Vec<String>,
}

/// What keeps a list of scopes from being the read-only scopes of a question service.
pub open spec fn scopes_fault(scopes: Seq<Seq<char>>) -> Option<QaErrorView> {
    if scopes.contains(ADMIN_SYNC_SCOPE@) {
        Some(QaErrorView::InvalidConfig("Q&A token must not include admin:sync"@))
    } else if !scopes.contains(READ_PERSONS_SCOPE@) {
        Some(QaErrorView::InvalidConfig("Q&A token must include "@ + READ_PERSONS_SCOPE@))
    } else if !scopes.contains(READ_TIMELINE_SCOPE@) {
        Some(QaErrorView::InvalidConfig("Q&A token must include "@ + READ_TIMELINE_SCOPE@))
    } else {
        None
    }
}

fn holds_scope(scopes: &Vec<String>, scope: &str) -> (r: bool)
    ensures
        r == crate::text::strings(scopes@).contains(scope@),
{
    let ghost views = crate::text::strings(scopes@);
    let mut i: usize = 0;
    while i < scopes.len()
        invariant
            i <= scopes.len(),
            views == crate::text::strings(scopes@),
            forall|j: int| 0 <= j < i ==> #[trigger] views[j] != scope@,
        decreases scopes.len() - i,
    {
        assert(views[i as int] == scopes@[i as int]@);
        if str_eq(scopes[i].as_str(), scope) {
            return true;
        }
        i = i + 1;
    }
    false
}

fn missing_scope(scope: &str) -> (r: QaError)
    ensures
        r@ == QaErrorView::InvalidConfig("Q&A token must include "@ + scope@),
{
    let mut message = "Q&A token must include ".to_owned();
    message.append(scope);
    QaError::InvalidConfig(message)
}

impl QaPrincipal {
    /// Whether the scopes let the principal read persons and the timeline, and administer nothing.
    pub fn validate_read_only(&self) -> (r: Result<(), QaError>)
        ensures
            match r {
                Ok(_) => scopes_fault(crate::text::strings(self.scopes@)) is None,
                Err(e) => scopes_fault(crate::text::strings(self.scopes@)) == Some(e@),
            },
    {
        if holds_scope(&self.scopes, ADMIN_SYNC_SCOPE) {
            return Err(invalid_config("Q&A token must not include admin:sync"));
        }
        if !holds_scope(&self.scopes, READ_PERSONS_SCOPE) {
            return Err(missing_scope(READ_PERSONS_SCOPE));
        }
        if !holds_scope(&self.scopes, READ_TIMELINE_SCOPE) {
            return Err(missing_scope(READ_TIMELINE_SCOPE));
        }
        Ok(())
    }
}

/// What is looked up for a question.
#[derive(Debug, PartialEq)]
pub struct RetrievalQuery {
    pub question: String,
    pub scopes: Vec<String>,
}

/// The query for a question: the question itself, with the two scopes that reading needs.
pub open spec fn query_for(question: Seq<char>) -> QueryView {
    QueryView { question, scopes: seq![READ_PERSONS_SCOPE@, READ_TIMELINE_SCOPE@] }
}

/// The query for a question: the question itself, with the two scopes that reading needs.
pub fn retrieval_query(question: &str) -> (r: RetrievalQuery)
    ensures
        r@ == query_for(question@),
{
    let r = RetrievalQuery {
        question: question.to_owned(),
        scopes: vec![READ_PERSONS_SCOPE.to_owned(), READ_TIMELINE_SCOPE.to_owned()],
    };
    assert(crate::text::strings(r.scopes@) =~= seq![READ_PERSONS_SCOPE@, READ_TIMELINE_SCOPE@]);
    r
}

/// A passage found for a question.
#[derive(Debug, PartialEq)]
pub struct SourceContext {
    pub observation_id: String,
    pub human_label: String,
    pub text: String,
    /// The confidence in the passage, by its bits in the binary32 format.
    pub confidence: u32,
}

/// Whether bits in the binary32 format stand for a number from one half upwards: these bits are in
/// the order of the numbers, up to those of infinity.
pub open spec fn from_one_half(confidence: u32) -> bool {
    0x3f00_0000 <= confidence <= 0x7f80_0000
}

/// What a retriever was asked: the question and the scopes.
pub struct QueryView {
    pub question: Seq<char>,
    pub scopes: Seq<Seq<char>>,
}

impl View for RetrievalQuery {
    type V = QueryView;

    open spec fn view(&self) -> QueryView {
        QueryView { question: self.question@, scopes: crate::text::strings(self.scopes@) }
    }
}

/// Looks up passages for a question.
pub trait Retriever {
    fn retrieve(&mut self, query: RetrievalQuery) -> Result<Vec<SourceContext>, QaError>;
}

/// How much may be spent on a day, in dollars, and how much was.
#[derive(Debug)]
pub struct DailyCostCap {
    pub cap_usd: Binary64,
    /// What was spent, by days since the start of 1970.
    pub spent_by_day: HashMap<i64, Binary64>,
}

/// No dollars.
pub open spec fn nothing() -> Binary64 {
    Binary64 { bits: 0 }
}

/// Whether an amount lies below zero.
pub open spec fn below_zero(amount: Binary64) -> bool {
    crate::binary64::at_least(nothing(), amount) && !crate::binary64::at_least(amount, nothing())
}

impl DailyCostCap {
    /// What was spent on a day.
    pub open spec fn spent(&self, day: i64) -> Binary64 {
        if self.spent_by_day@.contains_key(day) {
            self.spent_by_day@[day]
        } else {
            nothing()
        }
    }

    /// What keeps a question from being answered on a day.
    pub open spec fn fault(&self, day: i64) -> Option<QaErrorView> {
        if crate::binary64::at_least(nothing(), self.cap_usd) {
            Some(QaErrorView::InvalidConfig("daily cost cap must be positive"@))
        } else if crate::binary64::at_least(self.spent(day), self.cap_usd) {
            Some(QaErrorView::BudgetExceeded)
        } else {
            None
        }
    }

    fn spent_on(&self, day: i64) -> (r: Binary64)
        ensures
            r == self.spent(day),
    {
        match self.spent_by_day.get(&day) {
            Some(amount) => *amount,
            None => Binary64 { bits: 0 },
        }
    }

    pub fn assert_available(&self, day: i64) -> (r: Result<(), QaError>)
        ensures
            match r {
                Ok(_) => self.fault(day) is None,
                Err(e) => self.fault(day) == Some(e@),
            },
    {
        let zero = Binary64 { bits: 0 };
        if zero.reaches(&self.cap_usd) {
            return Err(invalid_config("daily cost cap must be positive"));
        }
        if self.spent_on(day).reaches(&self.cap_usd) {
            return Err(QaError::BudgetExceeded);
        }
        Ok(())
    }

    /// Adds a cost to a day.
    pub fn record(&mut self, day: i64, cost_usd: Binary64) -> (r: Result<(), QaError>)
        ensures
            final(self).cap_usd == old(self).cap_usd,
            if below_zero(cost_usd) {
                &&& r is Err
                &&& r->Err_0@ == QaErrorView::InvalidConfig("cost_usd must not be negative"@)
                &&& final(self).spent_by_day@ == old(self).spent_by_day@
            } else {
                &&& r is Ok
                &&& final(self).spent_by_day@ == old(self).spent_by_day@.insert(
                    day,
                    crate::binary64::plus(old(self).spent(day), cost_usd),
                )
            },
    {
        let zero = Binary64 { bits: 0 };
        if zero.reaches(&cost_usd) && !cost_usd.reaches(&zero) {
            return Err(invalid_config("cost_usd must not be negative"));
        }
        let total = self.spent_on(day).add_to(&cost_usd);
        self.spent_by_day.insert(day, total);
        Ok(())
    }
}

/// What was spent by day after an answer; one that is handed over costs nothing and leaves it alone.
pub open spec fn charged(budget: DailyCostCap, day: i64, answer: AnswerView) -> Map<i64, Binary64> {
    if answer.escalated {
        budget.spent_by_day@
    } else {
        budget.spent_by_day@.insert(
            day,
            crate::binary64::plus(budget.spent(day), answer.cost),
        )
    }
}

/// What a question is answered.
#[derive(Debug, PartialEq)]
pub struct QuestionAnswer {
    pub answer: String,
    pub provenance_ids: Vec<String>,
    pub escalated: bool,
    pub refused: bool,
    pub cost_usd: Binary64,
}

/// What an answer says.
pub struct AnswerView {
    pub answer: Seq<char>,
    pub provenance: Seq<Seq<char>>,
    pub escalated: bool,
    pub refused: bool,
    pub cost: Binary64,
}

impl View for QuestionAnswer {
    type V = AnswerView;

    open spec fn view(&self) -> AnswerView {
        AnswerView {
            answer: self.answer@,
            provenance: crate::text::strings(self.provenance_ids@),
            escalated: self.escalated,
            refused: self.refused,
            cost: self.cost_usd,
        }
    }
}

/// What is done with a question.
#[derive(Debug, Clone, Copy, PartialEq, Eq, Structural)]
pub enum QuestionClass {
    Answer,
    Refuse,
    Escalate,
}

/// The words that a question is refused for.
pub open spec fn refuse_words() -> Seq<Seq<char>> {
    seq![
        "個人間トラブル"@,
        "喧嘩"@,
        "ハラスメント"@,
        "健康相談"@,
        "病気"@,
        "契約"@,
        "返金"@,
        "支払い"@,
        "金銭"@,
    ]
}

/// The words that a question is handed to a person for.
pub open spec fn escalate_words() -> Seq<Seq<char>> {
    seq![
        "本人確認"@,
        "誰が"@,
        "特定して"@,
        "全員の誕生日"@,
        "誕生日"@,
        "生年月日"@,
        "出身地"@,
        "連絡先"@,
        "メール"@,
        "電話番号"@,
    ]
}

/// Whether a text holds one of several words.
pub open spec fn mentions(text: Seq<char>, words: Seq<Seq<char>>) -> bool {
    exists|i: int| 0 <= i < words.len() && crate::text::holds_text(text, #[trigger] words[i])
}

/// What is done with a question: it is refused before it is handed over, and handed over before it
/// is answered.
pub open spec fn class_of(question: Seq<char>) -> QuestionClass {
    if mentions(question, refuse_words()) {
        QuestionClass::Refuse
    } else if mentions(question, escalate_words()) {
        QuestionClass::Escalate
    } else {
        QuestionClass::Answer
    }
}

/// The contents of a list of string slices.
pub open spec fn words_of(list: Seq<&'static str>) -> Seq<Seq<char>> {
    list.map_values(|s: &'static str| s@)
}

fn mentions_any(text: &str, words: &Vec<&'static str>) -> (r: bool)
    ensures
        r == mentions(text@, words_of(words@)),
{
    let ghost views = words_of(words@);
    let mut i: usize = 0;
    while i < words.len()
        invariant
            i <= words.len(),
            views == words_of(words@),
            forall|j: int| 0 <= j < i ==> !crate::text::holds_text(text@, #[trigger] views[j]),
        decreases words.len() - i,
    {
        assert(views[i as int] == words@[i as int]@);
        if contains_text(text, words[i]) {
            return true;
        }
        i = i + 1;
    }
    false
}

/// Tells by its words what is done with a question.
pub fn classify_question(question: &str) -> (r: QuestionClass)
    ensures
        r == class_of(question@),
{
    let refuse: Vec<&'static str> = vec![
        "個人間トラブル",
        "喧嘩",
        "ハラスメント",
        "健康相談",
        "病気",
        "契約",
        "返金",
        "支払い",
        "金銭",
    ];
    assert(words_of(refuse@) =~= refuse_words());
    if mentions_any(question, &refuse) {
        return QuestionClass::Refuse;
    }
    let escalate: Vec<&'static str> = vec![
        "本人確認",
        "誰が",
        "特定して",
        "全員の誕生日",
        "誕生日",
        "生年月日",
        "出身地",
        "連絡先",
        "メール",
        "電話番号",
    ];
    assert(words_of(escalate@) =~= escalate_words());
    if mentions_any(question, &escalate) {
        return QuestionClass::Escalate;
    }
    QuestionClass::Answer
}

/// The text that names the person a question is handed to.
pub open spec fn escalation_text(destination: Seq<char>) -> Seq<char> {
    OPERATOR_ESCALATION_MESSAGE@ + " 誘導先: "@ + destination
}

fn escalation_message(destination: &str) -> (r: String)
    ensures
        r@ == escalation_text(destination@),
{
    let mut out = OPERATOR_ESCALATION_MESSAGE.to_owned();
    out.append(" 誘導先: ");
    out.append(destination);
    out
}

/// The answer to a question that the budget of the day does not allow.
pub open spec fn over_budget() -> AnswerView {
    AnswerView {
        answer: BUDGET_LIMIT_MESSAGE@,
        provenance: Seq::empty(),
        escalated: true,
        refused: true,
        cost: nothing(),
    }
}

/// The answer that hands a question to a person.
pub open spec fn handed_over(
    destination: Seq<char>,
    provenance: Seq<Seq<char>>,
    refused: bool,
) -> AnswerView {
    AnswerView {
        answer: escalation_text(destination),
        provenance,
        escalated: true,
        refused,
        cost: nothing(),
    }
}

/// The observations of a list of passages.
pub open spec fn observation_ids(contexts: Seq<SourceContext>) -> Seq<Seq<char>> {
    contexts.map_values(|c: SourceContext| c.observation_id@)
}

/// The passages that an answer rests on: the first three with enough confidence.
pub open spec fn selected(contexts: Seq<SourceContext>) -> Seq<SourceContext> {
    let confident = contexts.filter(|c: SourceContext| from_one_half(c.confidence));
    if confident.len() > 3 {
        confident.take(3)
    } else {
        confident
    }
}

/// The line that names a source.
pub open spec fn source_line(context: SourceContext) -> Seq<char> {
    "- "@ + context.human_label@ + " ("@ + context.observation_id@ + ")"@
}

/// The characters that an answer costs by: those of the question and of the passages.
pub open spec fn priced_chars(question: Seq<char>, contexts: Seq<SourceContext>) -> int
    decreases contexts.len(),
{
    if contexts.len() == 0 {
        question.len() as int
    } else {
        priced_chars(question, contexts.drop_last()) + contexts.last().text@.len()
    }
}

/// The bits of a millionth.
pub const MILLIONTH: u64 = 0x3eb0_c6f7_a0b5_ed8d;

/// What a number of characters costs in dollars: a millionth for each, rounded to millionths.
pub open spec fn cost_of(chars: nat) -> u64 {
    let count = crate::binary64::rounded(chars * pow2(1074), 1);
    let dollars = crate::binary64::rounded(
        crate::binary64::units(count) * crate::binary64::units(MILLIONTH),
        pow2(1074),
    );
    let millionths = crate::binary64::rounded(crate::binary64::units(dollars) * 1_000_000, 1);
    crate::binary64::rounded(
        crate::binary64::units(crate::binary64::without_fraction(millionths)),
        1_000_000,
    )
}

/// The characters that an answer is charged for: at least one, and as many as can be counted.
pub open spec fn charged_chars(question: Seq<char>, contexts: Seq<SourceContext>) -> nat {
    let chars = priced_chars(question, contexts);
    if chars < 1 {
        1
    } else if chars > u64::MAX {
        u64::MAX as nat
    } else {
        chars as nat
    }
}

/// What an answer costs.
pub open spec fn estimated_cost(question: Seq<char>, contexts: Seq<SourceContext>) -> Binary64 {
    Binary64 { bits: cost_of(charged_chars(question, contexts)) }
}

/// The answer that rests on selected passages.
pub open spec fn answered(question: Seq<char>, chosen: Seq<SourceContext>) -> AnswerView {
    AnswerView {
        answer: chosen[0].text@ + "\n\n重要事項は運営者に確認してください。\n\n由来:\n"@
            + crate::text::join(
            chosen.map_values(|c: SourceContext| source_line(c)),
            "\n"@,
        ),
        provenance: observation_ids(chosen),
        escalated: false,
        refused: false,
        cost: estimated_cost(question, chosen),
    }
}

/// What a question is answered once its passages are known.
pub open spec fn answer_from(
    question: Seq<char>,
    class: QuestionClass,
    destination: Seq<char>,
    contexts: Seq<SourceContext>,
) -> AnswerView {
    match class {
        QuestionClass::Refuse => handed_over(destination, Seq::empty(), true),
        QuestionClass::Escalate => handed_over(destination, observation_ids(contexts), false),
        QuestionClass::Answer => if selected(contexts).len() == 0 {
            handed_over(destination, Seq::empty(), false)
        } else {
            answered(question, selected(contexts))
        },
    }
}

fn no_answer(message: String, provenance_ids: Vec<String>, refused: bool) -> (r: QuestionAnswer)
    ensures
        r@ == (AnswerView {
            answer: message@,
            provenance: crate::text::strings(provenance_ids@),
            escalated: true,
            refused,
            cost: nothing(),
        }),
{
    QuestionAnswer { answer: message, provenance_ids, escalated: true, refused, cost_usd: Binary64 { bits: 0 } }
}

fn ids_of(contexts: &Vec<SourceContext>) -> (r: Vec<String>)
    ensures
        crate::text::strings(r@) == observation_ids(contexts@),
{
    let mut out: Vec<String> = Vec::new();
    let mut i: usize = 0;
    while i < contexts.len()
        invariant
            i <= contexts.len(),
            out.len() == i,
            forall|j: int| 0 <= j < i ==> (#[trigger] out@[j])@ == contexts@[j].observation_id@,
        decreases contexts.len() - i,
    {
        out.push(contexts[i].observation_id.clone());
        i = i + 1;
    }
    assert(crate::text::strings(out@) =~= observation_ids(contexts@));
    out
}

fn select(contexts: Vec<SourceContext>) -> (r: Vec<SourceContext>)
    ensures
        r@ == selected(contexts@),
{
    let ghost wanted = |c: SourceContext| from_one_half(c.confidence);
    let ghost all = contexts@;
    let mut rest = contexts;
    let mut out: Vec<SourceContext> = Vec::new();
    assert(all.take(0).filter(wanted) =~= Seq::<SourceContext>::empty()) by {
        reveal(Seq::filter);
    }
    let mut i: usize = 0;
    let n: usize = rest.len();
    let ghost mut confident = Seq::<SourceContext>::empty();
    while i < n
        invariant
            i <= n,
            n == all.len(),
            wanted == (|c: SourceContext| from_one_half(c.confidence)),
            rest@ == all.skip(i as int),
            confident == all.take(i as int).filter(wanted),
            out@ == (if confident.len() > 3 {
                confident.take(3)
            } else {
                confident
            }),
        decreases n - i,
    {
        let context = rest.remove(0);
        assert(context == all[i as int]);
        assert(rest@ =~= all.skip(i + 1));
        proof {
            reveal(Seq::filter);
            assert(all.take(i + 1).drop_last() =~= all.take(i as int));
            assert(all.take(i + 1).last() == all[i as int]);
        }
        if 0x3f00_0000 <= context.confidence && context.confidence <= 0x7f80_0000 {
            proof {
                confident = confident.push(context);
            }
            if out.len() < 3 {
                out.push(context);
            } else {
                assert(out@ =~= confident.take(3));
            }
        }
        i = i + 1;
    }
    assert(all.take(n as int) =~= all);
    out
}

/// What characters cost is above zero and below infinity.
proof fn costs_are_finite(chars: nat)
    requires
        1 <= chars <= u64::MAX,
    ensures
        crate::binary64::rounded(chars * pow2(1074), 1) < INFINITY,
        0 < cost_of(chars) <= INFINITY,
{
    lemma2_to64();
    lemma2_to64_rest();
    crate::binary64::whole_numbers();
    lemma_pow2_pos(1074);
    let one = pow2(1074);
    let n = chars * one;
    crate::binary64::rounded_is_nearest(n, 1);
    let count = crate::binary64::rounded(n, 1);
    // Two to the sixty-fourth is the bound of what can be counted.
    crate::binary64::large_whole_number();
    assert(n <= 0x1_0000_0000_0000_0000 * one) by (nonlinear_arith)
        requires
            n == chars * one,
            chars <= 0x1_0000_0000_0000_0000,
    ;
    crate::binary64::rounding_keeps_bounds(n, 1, count, 0x43f0_0000_0000_0000);
    assert(n >= one) by (nonlinear_arith)
        requires
            n == chars * one,
            chars >= 1,
    ;
    crate::binary64::rounding_keeps_floors(n, 1, count, 0x3ff0_0000_0000_0000);
    if 0x3ff0_0000_0000_0000 < count {
        crate::binary64::bits_are_in_order(0x3ff0_0000_0000_0000, count);
    }
    let u = crate::binary64::units(count);
    let m = crate::binary64::units(MILLIONTH);
    crate::binary64::rounded_is_nearest(u * m, one);
    let dollars = crate::binary64::rounded(u * m, one);
    assert(u * m >= one * m) by (nonlinear_arith)
        requires
            u >= one,
    ;
    crate::binary64::rounding_keeps_floors(u * m, one, dollars, MILLIONTH);
    if MILLIONTH < dollars {
        crate::binary64::bits_are_in_order(MILLIONTH, dollars);
    }
    let w = crate::binary64::units(dollars);
    crate::binary64::rounded_is_nearest(w * 1_000_000, 1);
    let millionths = crate::binary64::rounded(w * 1_000_000, 1);
    crate::binary64::a_million_millionths();
    crate::binary64::rounding_keeps_floors(w * 1_000_000, 1, millionths, 0x3fe0_0000_0000_0000);
    if 0x3fe0_0000_0000_0000 < millionths {
        crate::binary64::bits_are_in_order(0x3fe0_0000_0000_0000, millionths);
    }
    let whole = crate::binary64::without_fraction(millionths);
    crate::binary64::halves_round_up(millionths);
    let v = crate::binary64::units(whole);
    crate::binary64::rounded_is_nearest(v, 1_000_000);
    lemma_pow2_adds(20, 1054);
    lemma_pow2_pos(1054);
    assert(crate::binary64::units(1) == 1);
    crate::binary64::rounding_keeps_floors(v, 1_000_000, cost_of(chars), 1);
}

proof fn answers_cost_something(question: Seq<char>, contexts: Seq<SourceContext>)
    ensures
        !crate::binary64::at_least(nothing(), estimated_cost(question, contexts)),
        estimated_cost(question, contexts).bits <= INFINITY,
{
    let cost = estimated_cost(question, contexts);
    costs_are_finite(charged_chars(question, contexts));
    crate::binary64::bits_are_in_order(0, cost.bits);
    assert(cost.magnitude() == cost.bits && nothing().magnitude() == 0);
}

fn price(question: &str, contexts: &Vec<SourceContext>) -> (r: Binary64)
    ensures
        r == estimated_cost(question@, contexts@),
        r.bits <= INFINITY,
{
    let mut total: u64 = question.unicode_len() as u64;
    let mut i: usize = 0;
    assert(contexts@.take(0) =~= Seq::<SourceContext>::empty());
    while i < contexts.len()
        invariant
            i <= contexts.len(),
            total == (if priced_chars(question@, contexts@.take(i as int)) > u64::MAX {
                u64::MAX as int
            } else {
                priced_chars(question@, contexts@.take(i as int))
            }),
            priced_chars(question@, contexts@.take(i as int)) >= 0,
        decreases contexts.len() - i,
    {
        assert(contexts@.take(i + 1).drop_last() =~= contexts@.take(i as int));
        assert(contexts@.take(i + 1).last() == contexts@[i as int]);
        total = total.saturating_add(contexts[i].text.as_str().unicode_len() as u64);
        i = i + 1;
    }
    assert(contexts@.take(i as int) =~= contexts@);
    let chars: u64 = if total < 1 {
        1
    } else {
        total
    };
    let count = from_whole(chars);
    proof {
        costs_are_finite(chars as nat);
    }
    let dollars = product(count, MILLIONTH);
    let millionths = times_whole(dollars, 1_000_000);
    Binary64 { bits: over_whole(drop_fraction(millionths), 1_000_000) }
}

/// Answers a question from the passages that were found for it.
pub fn answer_with_contexts(
    question: &str,
    class: QuestionClass,
    operator_destination: &str,
    contexts: Vec<SourceContext>,
) -> (r: QuestionAnswer)
    ensures
        r@ == answer_from(question@, class, operator_destination@, contexts@),
{
    match class {
        QuestionClass::Refuse => {
            let none: Vec<String> = Vec::new();
            assert(crate::text::strings(none@) =~= Seq::<Seq<char>>::empty());
            no_answer(escalation_message(operator_destination), none, true)
        },
        QuestionClass::Escalate => no_answer(
            escalation_message(operator_destination),
            ids_of(&contexts),
            false,
        ),
        QuestionClass::Answer => {
            let chosen = select(contexts);
            if chosen.len() == 0 {
                let none: Vec<String> = Vec::new();
                assert(crate::text::strings(none@) =~= Seq::<Seq<char>>::empty());
                return no_answer(escalation_message(operator_destination), none, false);
            }
            let mut lines: Vec<String> = Vec::new();
            let mut i: usize = 0;
            while i < chosen.len()
                invariant
                    i <= chosen.len(),
                    lines.len() == i,
                    forall|j: int| 0 <= j < i ==> (#[trigger] lines@[j])@ == source_line(chosen@[j]),
                decreases chosen.len() - i,
            {
                let mut line = "- ".to_owned();
                line.append(chosen[i].human_label.as_str());
                line.append(" (");
                line.append(chosen[i].observation_id.as_str());
                line.append(")");
                lines.push(line);
                i = i + 1;
            }
            assert(crate::text::strings(lines@) =~= chosen@.map_values(
                |c: SourceContext| source_line(c),
            ));
            let mut answer = chosen[0].text.clone();
            answer.append("\n\n重要事項は運営者に確認してください。\n\n由来:\n");
            answer.append(join_strings(lines.as_slice(), "\n").as_str());
            let cost_usd = price(question, &chosen);
            QuestionAnswer {
                answer,
                provenance_ids: ids_of(&chosen),
                escalated: false,
                refused: false,
                cost_usd,
            }
        },
    }
}

/// The day of an instant, counted from the start of 1970.
pub open spec fn day_of(seconds: int) -> int {
    seconds / 86_400
}

fn day_number(now: &Timestamp) -> (r: i64)
    ensures
        r == day_of(now@.0 as int),
{
    let (seconds, _) = now.parts();
    let shifted: u64 = (seconds - crate::time::FIRST_SECOND) as u64;
    assert(crate::time::FIRST_SECOND as int == -96_465_292 * 86_400);
    assert(shifted as int / 86_400 == seconds as int / 86_400 + 96_465_292);
    (shifted / 86_400) as i64 - 96_465_292
}

/// The part of a question service that decides; what it answers is to be logged by the caller.
pub struct QaService<R: Retriever> {
    pub retriever: R,
    pub read_principal: QaPrincipal,
    pub budget: DailyCostCap,
    pub model: String,
    pub operator_destination: String,
}

/// What keeps a question service from being set up.
pub open spec fn service_fault(
    scopes: Seq<Seq<char>>,
    model: Seq<char>,
    destination: Seq<char>,
) -> Option<QaErrorView> {
    if scopes_fault(scopes) is Some {
        scopes_fault(scopes)
    } else if crate::text::blank(model) {
        Some(QaErrorView::InvalidConfig("model must be non-empty"@))
    } else if crate::text::blank(destination) {
        Some(QaErrorView::InvalidConfig("operator destination must be non-empty"@))
    } else {
        None
    }
}

/// What a question is told before anything is looked up: an error, a final answer, or nothing yet.
pub enum Preliminary {
    Refused(QaErrorView),
    Final(AnswerView),
    LookUp(QuestionClass),
}

/// What a question is told before anything is looked up.
pub open spec fn preliminary(
    question: Seq<char>,
    budget: DailyCostCap,
    day: i64,
    destination: Seq<char>,
) -> Preliminary {
    if crate::text::blank(question) {
        Preliminary::Refused(QaErrorView::InvalidInput("question must be non-empty"@))
    } else {
        match budget.fault(day) {
            Some(QaErrorView::BudgetExceeded) => Preliminary::Final(over_budget()),
            Some(e) => Preliminary::Refused(e),
            None => match class_of(question) {
                QuestionClass::Refuse => Preliminary::Final(
                    handed_over(destination, Seq::empty(), true),
                ),
                class => Preliminary::LookUp(class),
            },
        }
    }
}

impl<R: Retriever> QaService<R> {
    pub fn new(
        retriever: R,
        read_principal: QaPrincipal,
        budget: DailyCostCap,
        model: String,
        operator_destination: String,
    ) -> (r: Result<QaService<R>, QaError>)
        ensures
            match r {
                Ok(service) => {
                    &&& service_fault(
                        crate::text::strings(read_principal.scopes@),
                        model@,
                        operator_destination@,
                    ) is None
                    &&& service.retriever == retriever
                    &&& service.read_principal == read_principal
                    &&& service.budget == budget
                    &&& service.model == model
                    &&& service.operator_destination == operator_destination
                },
                Err(e) => service_fault(
                    crate::text::strings(read_principal.scopes@),
                    model@,
                    operator_destination@,
                ) == Some(e@),
            },
    {
        match read_principal.validate_read_only() {
            Ok(_) => {},
            Err(e) => return Err(e),
        }
        if is_blank(model.as_str()) {
            return Err(invalid_config("model must be non-empty"));
        }
        if is_blank(operator_destination.as_str()) {
            return Err(invalid_config("operator destination must be non-empty"));
        }
        Ok(QaService { retriever, read_principal, budget, model, operator_destination })
    }

    /// Answers a question. Passages come from the retriever, which is asked once where anything is
    /// looked up and not at all otherwise, and whose errors are passed on; an answer that rests on
    /// passages is charged to the day.
    pub fn answer(&mut self, question: &str, now: &Timestamp) -> (r: Result<QuestionAnswer, QaError>)
        ensures
            final(self).read_principal == old(self).read_principal,
            final(self).model == old(self).model,
            final(self).operator_destination == old(self).operator_destination,
            final(self).budget.cap_usd == old(self).budget.cap_usd,
            ({
                let day = day_of(now@.0 as int) as i64;
                let destination = old(self).operator_destination@;
                let same_budget = final(self).budget.spent_by_day@
                    == old(self).budget.spent_by_day@;
                match preliminary(question@, old(self).budget, day, destination) {
                    Preliminary::Refused(e) => r is Err && r->Err_0@ == e && same_budget
                        && final(self).retriever == old(self).retriever,
                    Preliminary::Final(a) => r is Ok && r->Ok_0@ == a && same_budget
                        && final(self).retriever == old(self).retriever,
                    Preliminary::LookUp(class) => exists|
                        asked: &mut R,
                        query: RetrievalQuery,
                        reply: Result<Vec<SourceContext>, QaError>,
                    |
                        {
                            &&& #[trigger] call_ensures(R::retrieve, (asked, query), reply)
                            &&& *asked == old(self).retriever
                            &&& *final(asked) == final(self).retriever
                            &&& query@ == query_for(question@)
                            &&& match reply {
                                Err(e) => r is Err && r->Err_0 == e && same_budget,
                                Ok(contexts) => {
                                    let answer = answer_from(
                                        question@,
                                        class,
                                        destination,
                                        contexts@,
                                    );
                                    &&& r is Ok && r->Ok_0@ == answer
                                    &&& final(self).budget.spent_by_day@ == charged(
                                        old(self).budget,
                                        day,
                                        answer,
                                    )
                                },
                            }
                        },
                }
            }),
    {
        if is_blank(question) {
            return Err(invalid_input("question must be non-empty"));
        }
        let day: i64 = day_number(now);
        match self.budget.assert_available(day) {
            Ok(_) => {},
            Err(QaError::BudgetExceeded) => {
                let none: Vec<String> = Vec::new();
                assert(crate::text::strings(none@) =~= Seq::<Seq<char>>::empty());
                return Ok(no_answer(BUDGET_LIMIT_MESSAGE.to_owned(), none, true));
            },
            Err(e) => return Err(e),
        }
        let class = classify_question(question);
        let contexts = match class {
            QuestionClass::Refuse => Vec::new(),
            _ => {
                let query = retrieval_query(question);
                let reply = self.retriever.retrieve(query);
                match reply {
                    Ok(found) => found,
                    Err(e) => return Err(e),
                }
            },
        };
        let ghost found = contexts@;
        let answer = answer_with_contexts(
            question,
            class,
            self.operator_destination.as_str(),
            contexts,
        );
        assert(answer@ == answer_from(question@, class, old(self).operator_destination@, found));
        if !answer.escalated {
            proof {
                answers_cost_something(question@, selected(found));
            }
            match self.budget.record(day, answer.cost_usd) {
                Ok(_) => {},
                Err(e) => return Err(e),
            }
        }
        Ok(answer)
    }
}

/// Whatever passages are found: an answer that is not handed over names at least one source and no
/// more than three, costs something, and an answer that is handed over costs nothing.
pub proof fn answers_name_their_sources(
    question: Seq<char>,
    class: QuestionClass,
    destination: Seq<char>,
    contexts: Seq<SourceContext>,
)
    ensures
        ({
            let a = answer_from(question, class, destination, contexts);
            &&& !a.escalated ==> 1 <= a.provenance.len() <= 3 && !crate::binary64::at_least(
                nothing(),
                a.cost,
            ) && !a.refused
            &&& a.escalated ==> a.cost == nothing() && a.answer == escalation_text(destination)
            &&& a.escalated <==> (class != QuestionClass::Answer || selected(contexts).len() == 0)
            &&& a.refused <==> class == QuestionClass::Refuse
        }),
{
    answers_cost_something(question, selected(contexts));
}

/// A day on which the cap was reached stays closed: every question is told the limit and nothing is
/// looked up. Answers of one day leave the budget of every other day alone.
pub proof fn used_up_days_stay_closed(
    budget: DailyCostCap,
    day: i64,
    question: Seq<char>,
    destination: Seq<char>,
    answer: AnswerView,
    other: i64,
)
    requires
        !crate::binary64::at_least(nothing(), budget.cap_usd),
        crate::binary64::at_least(budget.spent(day), budget.cap_usd),
        answer.cost.bits <= INFINITY,
        other != day,
    ensures
        !crate::text::blank(question) ==> preliminary(question, budget, day, destination)
            == Preliminary::Final(over_budget()),
        crate::binary64::at_least(
            crate::binary64::plus(budget.spent(day), answer.cost),
            budget.cap_usd,
        ),
        charged(budget, day, answer).contains_key(other) <==> budget.spent_by_day@.contains_key(
            other,
        ),
        charged(budget, day, answer)[other] == budget.spent_by_day@[other],
{
    let spent = budget.spent(day);
    assert(crate::binary64::units(0) == 0);
    assert(nothing().magnitude() == 0);
    assert(!spent.negative());
    crate::binary64::sums_do_not_shrink(spent, answer.cost);
}

/// One entry of the answer log.
#[derive(Debug, PartialEq)]
pub struct AnswerLogEntry {
    pub id: i64,
    pub created_at: String,
    pub question: String,
    pub answer: String,
    pub model: String,
    /// What the answer cost in dollars, with six places.
    pub cost_usd: String,
    pub provenance_ids: Vec<String>,
    pub flagged: bool,
    pub flag_reason: Option<String>,
}

/// The reason to be stored for a flag: without the white space around it, and not empty.
pub fn flag_reason(reason: &str) -> (r: Result<String, QaError>)
    ensures
        if crate::text::blank(reason@) {
            r is Err && r->Err_0@ == QaErrorView::InvalidInput("flag reason must be non-empty"@)
        } else {
            r is Ok && r->Ok_0@ == crate::text::trimmed(reason@)
        },
{
    if is_blank(reason) {
        return Err(invalid_input("flag reason must be non-empty"));
    }
    Ok(trim(reason).to_owned())
}

/// An integer in decimal notation.
pub open spec fn integer_text(n: int) -> Seq<char> {
    crate::text::padded_signed(n, 0)
}

fn integer_string(n: i64) -> (r: String)
    ensures
        r@ == integer_text(n as int),
{
    if n < 0 {
        let mut out = String::new();
        out.push('-');
        let magnitude: u64 = if n == i64::MIN {
            9_223_372_036_854_775_808
        } else {
            (-n) as u64
        };
        let digits = padded_text(magnitude, 0);
        out.append(digits.as_str());
        assert(out@ =~= integer_text(n as int));
        out
    } else {
        padded_text(n as u64, 0)
    }
}

/// Whether a flag reached its entry, by the number of entries that it changed.
pub fn flag_outcome(id: i64, changed: usize) -> (r: Result<(), QaError>)
    ensures
        if changed == 1 {
            r is Ok
        } else {
            r is Err && r->Err_0@ == QaErrorView::NotFound(
                "answer log entry "@ + integer_text(id as int),
            )
        },
{
    if changed != 1 {
        let mut message = "answer log entry ".to_owned();
        message.append(integer_string(id).as_str());
        return Err(QaError::NotFound(message));
    }
    Ok(())
}

/// A character as it may stand in HTML text.
pub open spec fn escaped_char(c: char) -> Seq<char> {
    if c == '&' {
        "&amp;"@
    } else if c == '<' {
        "&lt;"@
    } else if c == '>' {
        "&gt;"@
    } else if c == '"' {
        "&quot;"@
    } else if c == '\'' {
        "&#39;"@
    } else {
        seq![c]
    }
}

/// A text as it may stand in HTML text.
pub open spec fn escaped(s: Seq<char>) -> Seq<char>
    decreases s.len(),
{
    if s.len() == 0 {
        Seq::empty()
    } else {
        escaped(s.drop_last()) + escaped_char(s.last())
    }
}

/// Writes a text so that it can stand in HTML.
pub fn escape_html(value: &str) -> (r: String)
    ensures
        r@ == escaped(value@),
{
    let chars = chars_of(value);
    let mut out = String::new();
    let mut i: usize = 0;
    while i < chars.len()
        invariant
            i <= chars.len(),
            chars@ == value@,
            out@ == escaped(value@.take(i as int)),
        decreases chars.len() - i,
    {
        assert(value@.take(i + 1).drop_last() =~= value@.take(i as int));
        assert(value@.take(i + 1).last() == value@[i as int]);
        let c = chars[i];
        if c == '&' {
            out.append("&amp;");
        } else if c == '<' {
            out.append("&lt;");
        } else if c == '>' {
            out.append("&gt;");
        } else if c == '"' {
            out.append("&quot;");
        } else if c == '\'' {
            out.append("&#39;");
        } else {
            out.push(c);
            assert(out@ =~= escaped(value@.take(i as int)) + seq![c]);
        }
        i = i + 1;
    }
    assert(value@.take(i as int) =~= value@);
    out
}

/// An escaped text holds no character that opens or closes a tag or ends an attribute.
pub proof fn escaped_text_has_no_markup(s: Seq<char>)
    ensures
        forall|i: int|
            0 <= i < escaped(s).len() ==> {
                let c = #[trigger] escaped(s)[i];
                c != '<' && c != '>' && c != '"' && c != '\''
            },
    decreases s.len(),
{
    if s.len() > 0 {
        escaped_text_has_no_markup(s.drop_last());
        reveal_strlit("&amp;");
        reveal_strlit("&lt;");
        reveal_strlit("&gt;");
        reveal_strlit("&quot;");
        reveal_strlit("&#39;");
        let head = escaped(s.drop_last());
        let tail = escaped_char(s.last());
        assert forall|i: int| 0 <= i < escaped(s).len() implies ({
            let c = #[trigger] escaped(s)[i];
            c != '<' && c != '>' && c != '"' && c != '\''
        }) by {
            if i < head.len() {
                assert(escaped(s)[i] == head[i]);
            } else {
                assert(escaped(s)[i] == tail[i - head.len()]);
            }
        }
    }
}

/// The review of one log entry.
pub open spec fn entry_html(entry: AnswerLogEntry) -> Seq<char> {
    "<article class='entry"@ + (if entry.flagged {
        " flagged"@
    } else {
        ""@
    }) + "'><h2>#"@ + integer_text(entry.id as int) + "</h2><p><strong>Q:</strong> "@ + escaped(
        entry.question@,
    ) + "</p><p><strong>A:</strong> "@ + escaped(entry.answer@)
        + "</p><p><strong>Sources:</strong> "@ + escaped(
        crate::text::join(crate::text::strings(entry.provenance_ids@), ", "@),
    ) + "</p><p><strong>Model:</strong> "@ + escaped(entry.model@) + " / $"@ + entry.cost_usd@
        + "</p>"@ + (match entry.flag_reason {
        Some(reason) => "<p><strong>Flag:</strong> "@ + escaped(reason@) + "</p>"@,
        None => ""@,
    }) + "</article>"@
}

/// The reviews of log entries, one after the other.
pub open spec fn entries_html(entries: Seq<AnswerLogEntry>) -> Seq<char>
    decreases entries.len(),
{
    if entries.len() == 0 {
        Seq::empty()
    } else {
        entries_html(entries.drop_last()) + entry_html(entries.last())
    }
}

fn entry_review(entry: &AnswerLogEntry) -> (r: String)
    ensures
        r@ == entry_html(*entry),
{
    let mut out = "<article class='entry".to_owned();
    if entry.flagged {
        out.append(" flagged");
    } else {
        out.append("");
    }
    out.append("'><h2>#");
    out.append(integer_string(entry.id).as_str());
    out.append("</h2><p><strong>Q:</strong> ");
    out.append(escape_html(entry.question.as_str()).as_str());
    out.append("</p><p><strong>A:</strong> ");
    out.append(escape_html(entry.answer.as_str()).as_str());
    out.append("</p><p><strong>Sources:</strong> ");
    out.append(
        escape_html(join_strings(entry.provenance_ids.as_slice(), ", ").as_str()).as_str(),
    );
    out.append("</p><p><strong>Model:</strong> ");
    out.append(escape_html(entry.model.as_str()).as_str());
    out.append(" / $");
    out.append(entry.cost_usd.as_str());
    out.append("</p>");
    match &entry.flag_reason {
        Some(reason) => {
            let mut flag = "<p><strong>Flag:</strong> ".to_owned();
            flag.append(escape_html(reason.as_str()).as_str());
            flag.append("</p>");
            out.append(flag.as_str());
        },
        None => out.append(""),
    }
    out.append("</article>");
    out
}

/// The page on which log entries are reviewed.
pub fn render_review_html(entries: &[AnswerLogEntry]) -> (r: String)
    ensures
        r@
            == "<!doctype html><html lang='ja'><head><meta charset='utf-8'><title>Q&A Review</title></head><body><h1>Q&A Review</h1>"@
            + entries_html(entries@) + "</body></html>"@,
{
    let mut body = String::new();
    let mut i: usize = 0;
    while i < entries.len()
        invariant
            i <= entries.len(),
            body@ == entries_html(entries@.take(i as int)),
        decreases entries.len() - i,
    {
        assert(entries@.take(i + 1).drop_last() =~= entries@.take(i as int));
        body.append(entry_review(&entries[i]).as_str());
        i = i + 1;
    }
    assert(entries@.take(i as int) =~= entries@);
    let mut out =
        "<!doctype html><html lang='ja'><head><meta charset='utf-8'><title>Q&A Review</title></head><body><h1>Q&A Review</h1>".to_owned();
    out.append(body.as_str());
    out.append("</body></html>");
    out
}

/// A question with the treatment that is expected of it.
#[derive(Debug, PartialEq, Eq)]
pub struct GoldenQuestion {
    pub question: String,
    pub expected: String,
}

/// What a golden question says.
pub open spec fn golden_view(question: GoldenQuestion) -> (Seq<char>, Seq<char>) {
    (question.question@, question.expected@)
}

/// What golden questions say.
pub open spec fn golden_views(questions: Seq<GoldenQuestion>) -> Seq<(Seq<char>, Seq<char>)> {
    questions.map_values(|q: GoldenQuestion| golden_view(q))
}

/// How many questions expect a treatment.
pub open spec fn expecting(questions: Seq<(Seq<char>, Seq<char>)>, expected: Seq<char>) -> int
    decreases questions.len(),
{
    if questions.len() == 0 {
        0
    } else {
        expecting(questions.drop_last(), expected) + (if questions.last().1 == expected {
            1int
        } else {
            0
        })
    }
}

/// Whether a text names a treatment.
pub open spec fn known_treatment(expected: Seq<char>) -> bool {
    expected == "answer"@ || expected == "refuse"@ || expected == "escalate"@
}

/// What keeps a list from being a golden set.
pub open spec fn golden_fault(questions: Seq<(Seq<char>, Seq<char>)>) -> Option<QaErrorView> {
    if !(15 <= expecting(questions, "answer"@) <= 20) {
        Some(
            QaErrorView::InvalidInput("golden set must include 15-20 answerable questions"@),
        )
    } else if !(5 <= expecting(questions, "refuse"@) <= 10) {
        Some(QaErrorView::InvalidInput("golden set must include 5-10 refused questions"@))
    } else if !(3 <= expecting(questions, "escalate"@) <= 5) {
        Some(QaErrorView::InvalidInput("golden set must include 3-5 escalation questions"@))
    } else if exists|i: int|
        0 <= i < questions.len() && !known_treatment((#[trigger] questions[i]).1) {
        Some(
            QaErrorView::InvalidInput("golden question expected must be answer/refuse/escalate"@),
        )
    } else {
        None
    }
}

fn count_expecting(questions: &[GoldenQuestion], expected: &str) -> (r: usize)
    ensures
        r == expecting(golden_views(questions@), expected@),
{
    let ghost views = golden_views(questions@);
    let mut n: usize = 0;
    let mut i: usize = 0;
    assert(views.take(0) =~= Seq::<(Seq<char>, Seq<char>)>::empty());
    while i < questions.len()
        invariant
            i <= questions.len(),
            n <= i,
            views == golden_views(questions@),
            n == expecting(views.take(i as int), expected@),
        decreases questions.len() - i,
    {
        assert(views.take(i + 1).drop_last() =~= views.take(i as int));
        assert(views.take(i + 1).last() == golden_view(questions@[i as int]));
        if str_eq(questions[i].expected.as_str(), expected) {
            n = n + 1;
        }
        i = i + 1;
    }
    assert(views.take(i as int) =~= views);
    n
}

/// Whether a list is a golden set: enough questions to answer, to refuse and to hand over.
pub fn validate_golden_questions(questions: &[GoldenQuestion]) -> (r: Result<(), QaError>)
    ensures
        match r {
            Ok(_) => golden_fault(golden_views(questions@)) is None,
            Err(e) => golden_fault(golden_views(questions@)) == Some(e@),
        },
{
    let ghost views = golden_views(questions@);
    let answer: usize = count_expecting(questions, "answer");
    let refuse: usize = count_expecting(questions, "refuse");
    let escalate: usize = count_expecting(questions, "escalate");
    if !(15 <= answer && answer <= 20) {
        return Err(invalid_input("golden set must include 15-20 answerable questions"));
    }
    if !(5 <= refuse && refuse <= 10) {
        return Err(invalid_input("golden set must include 5-10 refused questions"));
    }
    if !(3 <= escalate && escalate <= 5) {
        return Err(invalid_input("golden set must include 3-5 escalation questions"));
    }
    let mut i: usize = 0;
    while i < questions.len()
        invariant
            i <= questions.len(),
            views == golden_views(questions@),
            15 <= expecting(views, "answer"@) <= 20,
            5 <= expecting(views, "refuse"@) <= 10,
            3 <= expecting(views, "escalate"@) <= 5,
            forall|j: int| 0 <= j < i ==> known_treatment((#[trigger] views[j]).1),
        decreases questions.len() - i,
    {
        assert(views[i as int] == golden_view(questions@[i as int]));
        let expected = questions[i].expected.as_str();
        if !(str_eq(expected, "answer") || str_eq(expected, "refuse") || str_eq(
            expected,
            "escalate",
        )) {
            return Err(invalid_input("golden question expected must be answer/refuse/escalate"));
        }
        i = i + 1;
    }
    Ok(())
}

/// The question that a JSON value holds.
pub open spec fn decoded_golden(value: JsonView) -> Option<(Seq<char>, Seq<char>)> {
    match (
        crate::json::text_field(value, "question"@, 0, 2),
        crate::json::text_field(value, "expected"@, 1, 2),
    ) {
        (Some(question), Some(expected)) => Some((question, expected)),
        _ => None,
    }
}

/// The questions that a JSON value holds: a list of them, or nothing.
pub open spec fn decoded_goldens(value: JsonView) -> Option<Seq<(Seq<char>, Seq<char>)>> {
    match value {
        JsonView::Array(items) => if forall|i: int|
            0 <= i < items.len() ==> decoded_golden(#[trigger] items[i]) is Some {
            Some(Seq::new(items.len(), |i: int| decoded_golden(items[i])->0))
        } else {
            None
        },
        _ => None,
    }
}

/// What reading a golden set gives.
pub open spec fn golden_result(value: Option<JsonView>) -> Result<
    Seq<(Seq<char>, Seq<char>)>,
    QaErrorView,
> {
    match value {
        None => Err(QaErrorView::Json),
        Some(v) => match decoded_goldens(v) {
            None => Err(QaErrorView::Json),
            Some(questions) => match golden_fault(questions) {
                Some(e) => Err(e),
                None => Ok(questions),
            },
        },
    }
}

/// What a list of golden questions says, or the error in its place.
pub open spec fn golden_list(r: Result<Vec<GoldenQuestion>, QaError>) -> Result<
    Seq<(Seq<char>, Seq<char>)>,
    QaErrorView,
> {
    match r {
        Ok(questions) => Ok(golden_views(questions@)),
        Err(e) => Err(e@),
    }
}

/// Reads a golden set from a JSON value and checks it.
pub fn decode_golden_questions(value: &Json) -> (r: Result<Vec<GoldenQuestion>, QaError>)
    ensures
        golden_list(r) == golden_result(Some(value@)),
{
    match value {
        Json::Array(items) => {
            let ghost views = value@->Array_0;
            let mut questions: Vec<GoldenQuestion> = Vec::new();
            let mut i: usize = 0;
            while i < items.len()
                invariant
                    i <= items.len(),
                    value@ == JsonView::Array(views),
                    views.len() == items.len(),
                    forall|j: int| 0 <= j < views.len() ==> #[trigger] views[j] == items@[j]@,
                    questions.len() == i,
                    forall|j: int|
                        0 <= j < i ==> decoded_golden(#[trigger] views[j]) == Some(
                            golden_view(questions@[j]),
                        ),
                decreases items.len() - i,
            {
                assert(views[i as int] == items@[i as int]@);
                match (
                    json_text_field(&items[i], "question", 0, 2),
                    json_text_field(&items[i], "expected", 1, 2),
                ) {
                    (Some(question), Some(expected)) => {
                        questions.push(GoldenQuestion { question, expected });
                    },
                    _ => {
                        assert(decoded_golden(views[i as int]) is None);
                        return Err(
                            QaError::Json("golden question needs question and expected".to_owned()),
                        );
                    },
                }
                i = i + 1;
            }
            assert(golden_views(questions@) =~= Seq::new(
                views.len(),
                |k: int| decoded_golden(views[k])->0,
            ));
            match validate_golden_questions(questions.as_slice()) {
                Ok(_) => Ok(questions),
                Err(e) => Err(e),
            }
        },
        _ => Err(QaError::Json("golden set must be a list".to_owned())),
    }
}

/// Reads a golden set from its JSON text and checks it; a question that gives one of its fields
/// twice is refused.
pub fn load_golden_questions(raw: &str) -> (r: Result<Vec<GoldenQuestion>, QaError>)
    ensures
        golden_list(r) == (if crate::json::names_any_twice(
            raw@,
            2,
            seq!["question"@, "expected"@],
        ) {
            Err(QaErrorView::Json)
        } else {
            golden_result(crate::json::json_parse(raw@))
        }),
{
    match parse_json(raw) {
        Ok(value) => {
            let fields = vec!["question", "expected"];
            assert(crate::json::literals(fields@) =~= seq!["question"@, "expected"@]);
            if repeats_any_name(raw, 2, &fields) {
                return Err(QaError::Json("golden question gives a field twice".to_owned()));
            }
            decode_golden_questions(&value)
        },
        Err(message) => Err(QaError::Json(message)),
    }
}

} // verus!

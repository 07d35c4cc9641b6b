use std::collections::HashMap;

use lethe::binary64::Binary64;
use lethe::qa::{
    answer_with_contexts, classify_question, escape_html, flag_outcome, flag_reason, load_golden_questions,
    render_review_html, retrieval_query, validate_golden_questions, AnswerLogEntry, DailyCostCap,
    GoldenQuestion, QaError, QaPrincipal, QaService, QuestionClass, RetrievalQuery, Retriever,
    SourceContext, BUDGET_LIMIT_MESSAGE, OPERATOR_ESCALATION_MESSAGE,
};
use lethe::time::Timestamp;

struct Shelf {
    asked: Vec<RetrievalQuery>,
    passages: Vec<(&'static str, bool)>,
    fails: bool,
}

impl Retriever for Shelf {
    fn retrieve(&mut self, query: RetrievalQuery) -> Result<Vec<SourceContext>, QaError> {
        self.asked.push(query);
        if self.fails {
            return Err(QaError::NotFound("shelf".to_owned()));
        }
        Ok(self
            .passages
            .iter()
            .map(|(id, confident)| SourceContext {
                observation_id: (*id).to_owned(),
                human_label: format!("label {id}"),
                text: "passage".to_owned(),
                confidence: (if *confident { 0.5f32 } else { 0.49 }).to_bits(),
            })
            .collect())
    }
}

fn principal() -> QaPrincipal {
    QaPrincipal {
        name: "qa".to_owned(),
        scopes: vec!["read:persons".to_owned(), "read:timeline".to_owned()],
    }
}

fn usd(amount: f64) -> Binary64 {
    Binary64 { bits: amount.to_bits() }
}

fn service(passages: Vec<(&'static str, bool)>, cap: f64) -> QaService<Shelf> {
    let shelf = Shelf { asked: vec![], passages, fails: false };
    let budget = DailyCostCap { cap_usd: usd(cap), spent_by_day: HashMap::new() };
    match QaService::new(shelf, principal(), budget, "model".to_owned(), "#ops".to_owned()) {
        Ok(service) => service,
        Err(e) => panic!("{e:?}"),
    }
}

fn day(seconds: i64) -> Timestamp {
    Timestamp::new(seconds, 0).unwrap()
}

#[test]
fn answers_name_confident_sources() {
    let mut qa = service(vec![("o1", true), ("o2", false), ("o3", true)], 1.0);
    let answer = qa.answer("好きな本は？", &day(86_400)).unwrap();
    assert_eq!(answer.provenance_ids, vec!["o1", "o3"]);
    assert!(!answer.escalated && !answer.refused);
    // Six characters of the question and seven of each passage.
    assert_eq!(answer.cost_usd, usd(0.00002));
    assert_eq!(qa.budget.spent_by_day.get(&1), Some(&usd(0.00002)));
    assert_eq!(qa.retriever.asked, vec![retrieval_query("好きな本は？")]);
    assert_eq!(qa.retriever.asked[0].scopes, vec!["read:persons", "read:timeline"]);
}

#[test]
fn at_most_three_sources_are_named() {
    let mut qa = service(vec![("a", true), ("b", true), ("c", true), ("d", true)], 1.0);
    let answer = qa.answer("本は？", &day(0)).unwrap();
    assert_eq!(answer.provenance_ids, vec!["a", "b", "c"]);
}

#[test]
fn doubtful_passages_are_handed_over() {
    let mut qa = service(vec![("a", false)], 1.0);
    let answer = qa.answer("本は？", &day(0)).unwrap();
    assert!(answer.escalated && !answer.refused);
    assert_eq!(answer.cost_usd, usd(0.0));
    assert_eq!(answer.answer, format!("{OPERATOR_ESCALATION_MESSAGE} 誘導先: #ops"));
    assert!(qa.budget.spent_by_day.is_empty());
}

#[test]
fn personal_questions_are_escalated_with_their_sources() {
    assert_eq!(classify_question("全員の誕生日は？"), QuestionClass::Escalate);
    let mut qa = service(vec![("a", false), ("b", true)], 1.0);
    let answer = qa.answer("誕生日は？", &day(0)).unwrap();
    assert_eq!(answer.provenance_ids, vec!["a", "b"]);
    assert!(answer.escalated && !answer.refused);
}

#[test]
fn forbidden_questions_are_refused_without_a_lookup() {
    assert_eq!(classify_question("返金は？"), QuestionClass::Refuse);
    let mut qa = service(vec![("a", true)], 1.0);
    let answer = qa.answer("返金は？", &day(0)).unwrap();
    assert!(answer.escalated && answer.refused);
    assert!(qa.retriever.asked.is_empty());
}

#[test]
fn spent_days_get_no_answers() {
    let mut qa = service(vec![("a", true)], 0.000005);
    qa.answer("本は？", &day(0)).unwrap();
    let answer = qa.answer("本は？", &day(1)).unwrap();
    assert_eq!(answer.answer, BUDGET_LIMIT_MESSAGE);
    assert!(answer.refused && answer.escalated);
    assert_eq!(qa.retriever.asked.len(), 1);
    // The next day has its own budget, and days before 1970 count downwards.
    assert!(!qa.answer("本は？", &day(86_400)).unwrap().refused);
    assert!(!qa.answer("本は？", &day(-1)).unwrap().refused);
    assert!(qa.budget.spent_by_day.contains_key(&-1));
}

#[test]
fn faults_of_a_question_are_told() {
    let mut qa = service(vec![], 0.00001);
    assert!(matches!(qa.answer("  ", &day(0)), Err(QaError::InvalidInput(_))));
    qa.retriever.fails = true;
    assert_eq!(
        qa.answer("本は？", &day(0)),
        Err(QaError::NotFound("shelf".to_owned()))
    );
    qa.budget.cap_usd = usd(0.0);
    assert!(matches!(qa.answer("本は？", &day(0)), Err(QaError::InvalidConfig(_))));
    let mut budget = DailyCostCap { cap_usd: usd(0.000001), spent_by_day: HashMap::new() };
    assert!(matches!(budget.record(0, usd(-0.1)), Err(QaError::InvalidConfig(_))));
    budget.record(0, usd(f64::MAX)).unwrap();
    budget.record(0, usd(1.0)).unwrap();
    assert_eq!(budget.spent_by_day.get(&0), Some(&usd(f64::MAX)));
    assert_eq!(budget.assert_available(0), Err(QaError::BudgetExceeded));
}

#[test]
fn principals_may_only_read() {
    assert!(principal().validate_read_only().is_ok());
    let mut admin = principal();
    admin.scopes.push("admin:sync".to_owned());
    assert_eq!(
        admin.validate_read_only(),
        Err(QaError::InvalidConfig("Q&A token must not include admin:sync".to_owned()))
    );
    let partial = QaPrincipal {
        name: "qa".to_owned(),
        scopes: vec!["read:persons".to_owned()],
    };
    assert_eq!(
        partial.validate_read_only(),
        Err(QaError::InvalidConfig("Q&A token must include read:timeline".to_owned()))
    );
    let shelf = Shelf { asked: vec![], passages: vec![], fails: false };
    let budget = DailyCostCap { cap_usd: usd(0.000001), spent_by_day: HashMap::new() };
    let service = QaService::new(shelf, principal(), budget, " ".to_owned(), "#ops".to_owned());
    assert!(matches!(service, Err(QaError::InvalidConfig(_))));
}

#[test]
fn flags_need_a_reason_and_an_entry() {
    assert_eq!(flag_reason("  wrong ").unwrap(), "wrong");
    assert!(matches!(flag_reason(" "), Err(QaError::InvalidInput(_))));
    assert!(flag_outcome(4, 1).is_ok());
    assert_eq!(
        flag_outcome(-4, 0),
        Err(QaError::NotFound("answer log entry -4".to_owned()))
    );
}

#[test]
fn review_pages_escape_what_they_show() {
    assert_eq!(escape_html("<a href=\"x\">&'"), "&lt;a href=&quot;x&quot;&gt;&amp;&#39;");
    let page = render_review_html(&[AnswerLogEntry {
        id: 7,
        created_at: "2026-04-01T00:00:00+00:00".to_owned(),
        question: "<b>?".to_owned(),
        answer: "&".to_owned(),
        model: "m".to_owned(),
        cost_usd: "0.000020".to_owned(),
        provenance_ids: vec!["o1".to_owned()],
        flagged: true,
        flag_reason: Some("wrong".to_owned()),
    }]);
    assert!(page.contains("&lt;b&gt;?"));
    assert!(!page.contains("<b>?"));
    assert!(page.contains("m / $0.000020</p>"));
    assert!(page.starts_with("<!doctype html>"));
    assert!(page.ends_with("</body></html>"));
}

fn golden(answer: usize, refuse: usize, escalate: usize) -> Vec<GoldenQuestion> {
    let mut list = Vec::new();
    for (count, expected) in [(answer, "answer"), (refuse, "refuse"), (escalate, "escalate")] {
        for i in 0..count {
            list.push(GoldenQuestion {
                question: format!("q{i}"),
                expected: expected.to_owned(),
            });
        }
    }
    list
}

#[test]
fn golden_sets_hold_enough_of_each_kind() {
    assert!(validate_golden_questions(&golden(15, 5, 3)).is_ok());
    assert!(validate_golden_questions(&golden(20, 10, 5)).is_ok());
    for bad in [golden(14, 5, 3), golden(15, 4, 3), golden(15, 5, 6)] {
        assert!(matches!(validate_golden_questions(&bad), Err(QaError::InvalidInput(_))));
    }
    let mut odd = golden(15, 5, 3);
    odd.push(GoldenQuestion { question: "?".to_owned(), expected: "ignore".to_owned() });
    assert!(matches!(validate_golden_questions(&odd), Err(QaError::InvalidInput(_))));
}

#[test]
fn golden_sets_are_read_from_json() {
    let items = golden(15, 5, 3)
        .iter()
        .map(|g| format!("{{\"question\":\"{}\",\"expected\":\"{}\"}}", g.question, g.expected))
        .collect::<Vec<_>>()
        .join(",");
    let read = load_golden_questions(&format!("[{items}]")).unwrap();
    assert_eq!(read, golden(15, 5, 3));
    assert!(matches!(load_golden_questions("["), Err(QaError::Json(_))));
    assert!(load_golden_questions("[]").is_err());
}

#[test]
fn qa_errors_have_their_texts() {
    assert_eq!(QaError::BudgetExceeded.message(), "budget exceeded");
    assert_eq!(QaError::NotFound("x".to_owned()).message(), "not found: x");
    assert_eq!(QaError::Sqlite("locked".to_owned()).message(), "sqlite error: locked");
}

#[test]
fn golden_fields_given_twice_are_refused() {
    let items = golden(15, 5, 3)
        .iter()
        .map(|q| format!("{{\"question\":\"{}\",\"expected\":\"{}\"}}", q.question, q.expected))
        .collect::<Vec<_>>();
    assert!(load_golden_questions(&format!("[{}]", items.join(","))).is_ok());
    let mut doubled = items;
    doubled[7] =
        "{\"question\":\"a\",\"question\":\"b\",\"expected\":\"answer\"}".to_owned();
    assert!(matches!(
        load_golden_questions(&format!("[{}]", doubled.join(","))),
        Err(QaError::Json(_))
    ));
}

#[test]
fn amounts_add_up_as_numbers_do() {
    // Seven tenths and one tenth stay just below eight tenths.
    let mut budget = DailyCostCap { cap_usd: usd(0.8), spent_by_day: HashMap::new() };
    budget.record(3, usd(0.7)).unwrap();
    budget.record(3, usd(0.1)).unwrap();
    assert_eq!(budget.spent_by_day.get(&3), Some(&usd(0.7 + 0.1)));
    assert!(budget.assert_available(3).is_ok());
    budget.record(3, usd(0.1)).unwrap();
    assert_eq!(budget.assert_available(3), Err(QaError::BudgetExceeded));
    // A cap that is no number is never reached.
    budget.cap_usd = usd(f64::NAN);
    assert!(budget.assert_available(3).is_ok());
    // Amounts below zero and without an end.
    for (a, b) in [(-0.3, 0.1), (-0.1, 0.3), (-0.0, 0.0), (f64::INFINITY, 1.0), (-1.0, f64::INFINITY)] {
        budget.spent_by_day.insert(4, usd(a));
        budget.record(4, usd(b)).unwrap();
        assert_eq!(budget.spent_by_day.get(&4), Some(&usd(a + b)), "{a} + {b}");
    }
}

#[test]
fn answers_cost_what_their_characters_cost() {
    for chars in [1usize, 3, 7, 49, 99, 1_000, 12_345] {
        let mut qa = service(vec![("a", true)], 1.0);
        let question = "本".repeat(chars);
        let answer = qa.answer(&question, &day(0)).unwrap();
        let expected = (((chars + 7) as f64) * 0.000001 * 1_000_000.0).round() / 1_000_000.0;
        assert_eq!(answer.cost_usd, usd(expected), "{chars}");
    }
}

#[test]
fn confidence_counts_from_one_half() {
    let passage = |confidence: f32| SourceContext {
        observation_id: "o".to_owned(),
        human_label: "l".to_owned(),
        text: "t".to_owned(),
        confidence: confidence.to_bits(),
    };
    for (confidence, counts) in
        [(0.5, true), (0.49999997, false), (1.0, true), (f32::INFINITY, true), (f32::NAN, false), (-0.9, false)]
    {
        let answer = answer_with_contexts("q", QuestionClass::Answer, "#ops", vec![passage(confidence)]);
        assert_eq!(!answer.escalated, counts, "{confidence}");
    }
}

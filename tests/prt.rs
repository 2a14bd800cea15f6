use prt::collection::{Answer, Predictions};
use prt::input::{parse_answer, parse_folded_answer, parse_probability};
use prt::model::{OpenPrediction, Record, ResolvedPrediction, ValidationError, PROBABILITY_SCALE};
use prt::stats::{classify, score, tally, BinReport, EmptyInputError, Fraction};
use prt::time::Timestamp;

fn at(seconds: i64) -> Timestamp {
    Timestamp { seconds, nanos: 0, offset: 3600 }
}

fn record(statement: &str, probability: u32, resolves_after: i64) -> Record {
    Record::new(statement.to_string(), probability, at(resolves_after), at(0)).unwrap()
}

fn open(statement: &str, probability: u32, resolves_after: i64) -> OpenPrediction {
    OpenPrediction { record: record(statement, probability, resolves_after) }
}

fn resolved(probability: u32, outcome: bool) -> ResolvedPrediction {
    open("it happens", probability, 10).resolve_at(outcome, at(20))
}

fn statements(items: &[OpenPrediction]) -> Vec<String> {
    items.iter().map(|p| p.record.statement.clone()).collect()
}

#[test]
fn record_rejects_empty_statement() {
    let r = Record::new(String::new(), 500_000, at(1), at(0));
    assert_eq!(r.unwrap_err(), ValidationError::EmptyStatement);
}

#[test]
fn record_rejects_probability_above_one() {
    let r = Record::new("x".to_string(), PROBABILITY_SCALE + 1, at(1), at(0));
    assert_eq!(r.unwrap_err(), ValidationError::ProbabilityOutOfRange);
}

#[test]
fn record_accepts_bounds() {
    assert_eq!(record("x", 0, 1).probability, 0);
    assert_eq!(record("x", PROBABILITY_SCALE, 1).probability, PROBABILITY_SCALE);
}

#[test]
fn resolve_keeps_record_and_sets_outcome() {
    for &p in &[0u32, 300_000, 500_000, 1_000_000] {
        for &o in &[true, false] {
            let r = open("rain tomorrow", p, 5).resolve_at(o, at(7));
            assert_eq!(r.record.statement, "rain tomorrow");
            assert_eq!(r.record.probability, p);
            assert_eq!(r.record.resolves_after, at(5));
            assert_eq!(r.record.created_on, at(0));
            assert_eq!(r.resolved_to, o);
            assert_eq!(r.is_correct(), o);
            assert_eq!(r.resolved_on, at(7));
        }
    }
}

#[test]
fn resolve_with_clock_keeps_record() {
    let r = open("snow", 250_000, 5).resolve(false);
    assert_eq!(r.record.statement, "snow");
    assert_eq!(r.record.probability, 250_000);
    assert!(!r.resolved_to);
    assert!(r.resolved_on.nanos < 2_000_000_000);
}

#[test]
fn due_at_and_after_deadline_only() {
    let p = open("x", 500_000, 100);
    assert!(!p.is_due(&at(99)));
    assert!(p.is_due(&at(100)));
    assert!(p.is_due(&at(101)));
    let later_nanos = Timestamp { seconds: 100, nanos: 1, offset: 0 };
    let earlier = OpenPrediction {
        record: Record::new("y".to_string(), 1, later_nanos, at(0)).unwrap(),
    };
    assert!(!earlier.is_due(&at(100)));
}

#[test]
fn resolving_moves_item_exactly_once() {
    let mut c = Predictions::new();
    c.open.push(open("a", 700_000, 1));
    c.resolve_due(&at(5), &vec![Answer::Resolve(true)]);
    assert!(c.open.is_empty());
    assert_eq!(c.resolved.len(), 1);
    assert_eq!(c.resolved[0].record.statement, "a");
    assert!(c.resolved[0].resolved_to);
    assert_eq!(c.resolved[0].resolved_on, at(5));
}

#[test]
fn traversal_visits_every_item_after_a_removal() {
    let mut c = Predictions::new();
    c.resolved.push(resolved(900_000, true));
    c.open.push(open("a", 600_000, 1));
    c.open.push(open("b", 400_000, 2));
    c.open.push(open("c", 500_000, 50));
    c.open.push(open("d", 800_000, 3));
    c.open.push(open("e", 100_000, 4));
    c.open.push(open("f", 100_000, 4));
    let answers = vec![
        Answer::Resolve(true),
        Answer::Resolve(false),
        Answer::Resolve(true),
        Answer::Skip,
        Answer::Resolve(false),
        Answer::Defer,
    ];
    c.resolve_due(&at(10), &answers);
    assert_eq!(statements(&c.open), vec!["c", "d", "f"]);
    let done: Vec<(String, bool)> = c
        .resolved
        .iter()
        .map(|r| (r.record.statement.clone(), r.resolved_to))
        .collect();
    assert_eq!(
        done,
        vec![
            ("it happens".to_string(), true),
            ("a".to_string(), true),
            ("b".to_string(), false),
            ("e".to_string(), false),
        ]
    );
}

#[test]
fn skipping_everything_changes_nothing() {
    let mut c = Predictions::new();
    c.open.push(open("a", 600_000, 1));
    c.open.push(open("b", 600_000, 2));
    c.resolve_due(&at(10), &vec![Answer::Skip, Answer::Defer]);
    assert_eq!(statements(&c.open), vec!["a", "b"]);
    assert!(c.resolved.is_empty());
}

fn report(index: u32, correct: u32, incorrect: u32) -> BinReport {
    BinReport { index, correct, incorrect }
}

#[test]
fn tally_of_nothing_has_ten_empty_bins() {
    let bins = tally(&Vec::new());
    assert_eq!(bins.len(), 10);
    for (k, b) in bins.iter().enumerate() {
        assert_eq!(*b, report(10 + k as u32, 0, 0));
        assert_eq!(b.accuracy(), None);
        assert_eq!(b.lower(), (10 + k as u32) * 50_000);
        assert_eq!(b.upper(), (11 + k as u32) * 50_000);
    }
}

#[test]
fn tally_counts_every_prediction() {
    let items: Vec<ResolvedPrediction> = vec![
        resolved(0, false),
        resolved(0, true),
        resolved(1_000_000, true),
        resolved(500_000, true),
        resolved(499_999, true),
        resolved(730_000, false),
        resolved(270_000, false),
        resolved(950_000, true),
        resolved(949_999, false),
    ];
    let bins = tally(&items);
    let total: u32 = bins.iter().map(|b| b.correct + b.incorrect).sum();
    assert_eq!(total as usize, items.len());
    assert_eq!(bins[9], report(19, 3, 1));
    assert_eq!(bins[0], report(10, 1, 1));
    assert_eq!(bins[4], report(14, 1, 1));
    assert_eq!(bins[8], report(18, 0, 1));
}

#[test]
fn tally_boundary_goes_to_upper_bin() {
    let bins = tally(&vec![resolved(600_000, true)]);
    assert_eq!(bins[2], report(12, 1, 0));
    assert_eq!(bins[1], report(11, 0, 0));
    assert_eq!(bins[2].lower(), 600_000);
    assert_eq!(bins[2].upper(), 650_000);
}

#[test]
fn tally_mirrors_low_probabilities() {
    let low = tally(&vec![resolved(300_000, false)]);
    let high = tally(&vec![resolved(700_000, true)]);
    assert_eq!(low, high);
    assert_eq!(low[4], report(14, 1, 0));
    assert_eq!(classify(300_000, false), classify(700_000, true));
    assert_eq!(classify(100_000, false), (18, true));
}

#[test]
fn accuracy_distinguishes_no_data_from_zero() {
    let bins = tally(&vec![resolved(820_000, false)]);
    assert_eq!(bins[6].accuracy(), Some(Fraction { numerator: 0, denominator: 1 }));
    assert_eq!(bins[5].accuracy(), None);
    let mixed = report(15, 3, 1);
    assert_eq!(mixed.accuracy(), Some(Fraction { numerator: 3, denominator: 4 }));
}

fn as_f64(f: Fraction) -> f64 {
    f.numerator as f64 / f.denominator as f64
}

#[test]
fn brier_score_of_single_predictions() {
    assert_eq!(as_f64(score(&vec![resolved(1_000_000, true)]).unwrap()), 0.0);
    assert_eq!(as_f64(score(&vec![resolved(1_000_000, false)]).unwrap()), 1.0);
    assert_eq!(as_f64(score(&vec![resolved(500_000, true)]).unwrap()), 0.25);
    assert_eq!(as_f64(score(&vec![resolved(500_000, false)]).unwrap()), 0.25);
}

#[test]
fn brier_score_is_exact_mean() {
    let s = score(&vec![resolved(700_000, true), resolved(200_000, true)]).unwrap();
    assert_eq!(
        s,
        Fraction {
            numerator: 300_000u128 * 300_000 + 800_000u128 * 800_000,
            denominator: 2 * 1_000_000_000_000,
        }
    );
}

#[test]
fn brier_score_of_nothing_is_an_error() {
    assert_eq!(score(&Vec::new()), Err(EmptyInputError));
}

#[test]
fn probability_input_forms() {
    assert_eq!(parse_probability("70"), Some(700_000));
    assert_eq!(parse_probability("70%"), Some(700_000));
    assert_eq!(parse_probability("+5"), Some(50_000));
    assert_eq!(parse_probability("0"), Some(0));
    assert_eq!(parse_probability("100%"), Some(1_000_000));
    assert_eq!(parse_probability("007"), Some(70_000));
    assert_eq!(parse_probability("101"), None);
    assert_eq!(parse_probability("1000"), None);
    assert_eq!(parse_probability(""), None);
    assert_eq!(parse_probability("%"), None);
    assert_eq!(parse_probability("+"), None);
    assert_eq!(parse_probability("-5"), None);
    assert_eq!(parse_probability("5%%"), None);
    assert_eq!(parse_probability("abc"), None);
}

#[test]
fn answers_in_any_case() {
    assert_eq!(parse_answer("TRUE"), Some(Answer::Resolve(true)));
    assert_eq!(parse_answer("Yes"), Some(Answer::Resolve(true)));
    assert_eq!(parse_answer("0"), Some(Answer::Resolve(true)));
    assert_eq!(parse_answer("N"), Some(Answer::Resolve(false)));
    assert_eq!(parse_answer("1"), Some(Answer::Resolve(false)));
    assert_eq!(parse_answer("Skip"), Some(Answer::Skip));
    assert_eq!(parse_answer("S"), Some(Answer::Skip));
    assert_eq!(parse_answer("maybe"), None);
    assert_eq!(parse_answer(""), None);
}

#[test]
fn folded_answers_are_taken_as_they_are() {
    assert_eq!(parse_folded_answer("false"), Some(Answer::Resolve(false)));
    assert_eq!(parse_folded_answer("t"), Some(Answer::Resolve(true)));
    assert_eq!(parse_folded_answer("TRUE"), None);
}

#[test]
fn open_prediction_text() {
    let p = open("rain tomorrow", 700_000, 0);
    assert_eq!(
        p.render(),
        "\nStatement: rain tomorrow\nProbability: 70.0%\nWill resolve after: 1970-01-01 01:00:00 +01:00\n"
    );
}

#[test]
fn resolved_prediction_text() {
    let r = open("x", 1_250, 0).resolve_at(false, at(86_400));
    assert_eq!(
        r.render(),
        "\nStatement: x\nProbability: 0.1%\nResolved on: 1970-01-02 01:00:00 +01:00\nResolved: false\n"
    );
    let sure = open("y", 1_000_000, 0).resolve_at(true, Timestamp { seconds: 0, nanos: 0, offset: 0 });
    assert_eq!(
        sure.render(),
        "\nStatement: y\nProbability: 100.0%\nResolved on: 1970-01-01 00:00:00 +00:00\nResolved: true\n"
    );
}

#[test]
fn listing_of_empty_collection() {
    assert_eq!(
        Predictions::new().render(),
        "Open predictions:\nNone\nResolved predictions:\nNone\n"
    );
}

#[test]
fn listing_of_both_kinds() {
    let mut c = Predictions::new();
    c.open.push(open("a", 500_000, 0));
    c.resolved.push(open("b", 50_000, 0).resolve_at(true, at(0)));
    let expected = format!(
        "Open predictions:\n{}\nResolved predictions:\n{}\n",
        c.open[0].render(),
        c.resolved[0].render()
    );
    assert_eq!(c.render(), expected);
    assert!(c.render().contains("Probability: 5.0%"));
}

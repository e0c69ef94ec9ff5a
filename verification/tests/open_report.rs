use field_assist::location::Location;
use field_assist::open_report::{LoadProblem, OpenReport, ProblemCategory};

fn problem(category: ProblemCategory, subject: &str) -> LoadProblem {
    LoadProblem::new(category, subject.to_string(), "detail".to_string(), None)
}

#[test]
fn grouped_in_display_order() {
    let mut report = OpenReport::new(Location::parse("doc.facomp").unwrap());
    assert!(report.is_ok());
    report.push(problem(ProblemCategory::Other, "a"));
    report.push(problem(ProblemCategory::MissingReference, "b"));
    report.push(problem(ProblemCategory::Other, "c"));
    assert!(!report.is_ok());
    let groups = report.grouped();
    assert_eq!(groups.len(), 2);
    assert_eq!(groups[0].0, ProblemCategory::MissingReference);
    assert_eq!(groups[0].1.len(), 1);
    assert_eq!(groups[1].0, ProblemCategory::Other);
    assert_eq!(groups[1].1.iter().map(|p| p.subject.as_str()).collect::<Vec<_>>(), vec!["a", "c"]);
}

#[test]
fn extend_keeps_target() {
    let mut a = OpenReport::new(Location::parse("a.facomp").unwrap());
    let mut b = OpenReport::new(Location::parse("b.facomp").unwrap());
    b.push(problem(ProblemCategory::CorruptDocument, "x"));
    a.extend_from(b);
    assert_eq!(a.target.as_str(), "a.facomp");
    assert_eq!(a.problems.len(), 1);
    assert_eq!(ProblemCategory::CorruptDocument.title(), "Corrupt documents");
    assert_eq!(ProblemCategory::MissingReference.title(), "Missing references");
}

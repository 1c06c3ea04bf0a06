use deposito::report::{group_report, is_critical, report_line, report_lines, ReportLine, ReportRow};

fn row(w: &str, i: &str, q: i64, t: i64) -> ReportRow {
    ReportRow { warehouse: w.to_string(), item: i.to_string(), quantity: q, threshold: t }
}

#[test]
fn critical_is_strictly_below() {
    assert!(!is_critical(5, 5));
    assert!(is_critical(4, 5));
    assert!(!is_critical(10, 5));
    assert!(is_critical(i64::MIN, i64::MAX));
    assert!(!is_critical(-3, -3));
}

#[test]
fn report_line_flags() {
    let l = report_line(&row("Fridge", "Egg", 3, 5));
    assert_eq!(l, ReportLine { item: "Egg".to_string(), quantity: 3, threshold: 5, critical: true });
    let lines = report_lines(&[row("Fridge", "Egg", 10, 5), row("Fridge", "Milk", 1, 2)]);
    assert_eq!(lines.len(), 2);
    assert!(!lines[0].critical);
    assert!(lines[1].critical);
    assert_eq!(lines[1].item, "Milk");
}

#[test]
fn group_report_by_consecutive_warehouse() {
    let rows = vec![
        row("Attic", "Box", 1, 2),
        row("Attic", "Lamp", 3, 2),
        row("Fridge", "Egg", 10, 5),
        row("Garage", "Oil", 0, 1),
    ];
    let groups = group_report(&rows);
    assert_eq!(groups.len(), 3);
    assert_eq!(groups[0].warehouse, "Attic");
    assert_eq!(groups[0].lines.len(), 2);
    assert!(groups[0].lines[0].critical);
    assert!(!groups[0].lines[1].critical);
    assert_eq!(groups[1].warehouse, "Fridge");
    assert_eq!(groups[2].warehouse, "Garage");
    assert_eq!(groups[2].lines[0].item, "Oil");
    assert!(group_report(&[]).is_empty());
}

#[test]
fn group_report_does_not_reorder() {
    let rows = vec![row("A", "x", 1, 0), row("B", "y", 1, 0), row("A", "z", 1, 0)];
    let groups = group_report(&rows);
    assert_eq!(groups.len(), 3);
    assert_eq!(groups[2].warehouse, "A");
    assert_eq!(groups[2].lines[0].item, "z");
}

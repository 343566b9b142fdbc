//! The filter menu's form: conditions and value lists, and the filter each
//! stands for.

use datagrid_core::{
    checked, input_type, value_list_entries, ColumnFilter, Condition, DistinctValues, Draft, DraftCondition, DraftMode,
    FilterOp, Value, ValueKind,
};

fn draft(kind: ValueKind) -> Draft {
    Draft::from_filter(None, kind)
}

#[test]
fn a_fresh_form_is_no_filter() {
    let form = draft(ValueKind::Number);
    assert_eq!(form.first.op, Some(FilterOp::Equals));
    assert!(form.build().is_empty());
}

#[test]
fn conditions_need_their_operands() {
    let mut form = draft(ValueKind::Number);
    form.first = DraftCondition {
        op: Some(FilterOp::Between),
        first: "10".into(),
        second: String::new(),
    };
    assert!(form.build().is_empty(), "a range without its end");

    form.first.second = "20".into();
    form.second = DraftCondition {
        op: Some(FilterOp::IsEmpty),
        ..DraftCondition::default()
    };
    form.any = true;
    let filter = form.build();
    assert_eq!(
        filter,
        ColumnFilter::new(Condition::between("10", "20")).or(Condition::is_empty())
    );
}

#[test]
fn or_with_one_condition_is_plain() {
    let mut form = draft(ValueKind::Text);
    form.first.first = "ber".into();
    form.any = true;
    assert_eq!(form.build(), ColumnFilter::new(Condition::contains("ber")));
}

#[test]
fn a_filter_round_trips_through_the_form() {
    let filter = ColumnFilter::new(Condition::greater(5)).or(Condition::less(-5));
    let form = Draft::from_filter(Some(&filter), ValueKind::Number);
    assert_eq!(form.mode, DraftMode::Conditions);
    assert_eq!(
        form.build(),
        ColumnFilter::new(Condition::greater("5")).or(Condition::less("-5"))
    );

    let list = ColumnFilter::new(Condition::one_of(vec![1, 2])).or(Condition::is_empty());
    let form = Draft::from_filter(Some(&list), ValueKind::Number);
    assert_eq!(form.mode, DraftMode::Values);
    assert!(form.empty);
    assert_eq!(form.build(), list);
}

#[test]
fn ticking_every_value_is_no_filter() {
    let known = DistinctValues {
        values: vec![(Value::Int(1), 3), (Value::Int(2), 1)],
        empty: 2,
        truncated: false,
    };
    let mut form = draft(ValueKind::Number);
    form.mode = DraftMode::Values;
    form.ticked = Some(vec![Value::Int(1), Value::Int(2)]);

    assert!(form.build_against(Some(&known)).is_empty());

    form.empty = false;
    assert_eq!(
        form.build_against(Some(&known)),
        ColumnFilter::new(Condition::one_of(vec![1, 2]))
    );

    form.ticked = None;
    assert_eq!(
        form.build_against(Some(&known)),
        ColumnFilter::new(Condition::is_not_empty())
    );
}

#[test]
fn ticked_values_are_listed_once_in_sort_order() {
    let mut form = draft(ValueKind::Text);
    form.mode = DraftMode::Values;
    form.empty = false;
    form.ticked = Some(vec![
        Value::from("pear"),
        Value::from("Apple"),
        Value::from("pear"),
        Value::from("banana"),
    ]);
    assert_eq!(
        form.build(),
        ColumnFilter::new(Condition::one_of(vec!["Apple", "banana", "pear"]))
    );
}

#[test]
fn a_truncated_list_is_never_everything() {
    let known = DistinctValues {
        values: vec![(Value::Int(1), 3)],
        empty: 0,
        truncated: true,
    };
    let mut form = draft(ValueKind::Number);
    form.mode = DraftMode::Values;
    form.ticked = Some(vec![Value::Int(1)]);
    form.empty = false;
    assert_eq!(
        form.build_against(Some(&known)),
        ColumnFilter::new(Condition::one_of(vec![1]))
    );
}

#[test]
fn ticking_narrows_the_list_from_every_value() {
    let all = vec![Value::Int(1), Value::Int(2), Value::Int(3)];
    let mut form = draft(ValueKind::Number);
    form.mode = DraftMode::Values;
    assert!(form.is_ticked(&Value::Int(2)));

    form.tick_value(&Value::Int(2), false, &all);
    assert!(!form.is_ticked(&Value::Int(2)));
    assert!(form.is_ticked(&Value::Int(1)));
    form.empty = false;
    assert_eq!(
        form.build(),
        ColumnFilter::new(Condition::one_of(vec![1, 3]))
    );

    // Ticking what the search leaves also ticks rows without a value, when
    // nothing is searched.
    form.tick_visible(&vec![Value::Int(2)], true, &all);
    assert!(form.is_ticked(&Value::Int(2)));
    assert!(form.empty);

    form.search = "4".into();
    form.tick_visible(&vec![Value::Int(1), Value::Int(3)], false, &all);
    assert!(form.empty, "a searched list leaves rows without a value alone");
    assert_eq!(
        form.build(),
        ColumnFilter::new(Condition::one_of(vec![2])).or(Condition::is_empty())
    );
}

#[test]
fn operand_inputs_follow_the_kind() {
    assert_eq!(input_type(ValueKind::Date), "date");
    assert_eq!(input_type(ValueKind::DateTime), "datetime-local");
    assert_eq!(input_type(ValueKind::Number), "text");
}

#[test]
fn checkbox_text_reads_the_true_words() {
    assert!(checked(" Yes "));
    assert!(checked("ja"));
    assert!(checked("1"));
    assert!(!checked("no"));
    assert!(!checked("maybe"));
}

#[test]
fn the_value_list_search_ignores_case_and_surrounding_blanks() {
    let labels: Vec<String> = vec!["Berlin".into(), "Hamburg".into(), "BREMEN".into(), "Köln".into()];
    assert_eq!(value_list_entries(&labels, "  bEr "), vec![0]);
    assert_eq!(value_list_entries(&labels, "UR"), vec![1]);
    assert_eq!(value_list_entries(&labels, "e"), vec![0, 2]);
    assert_eq!(value_list_entries(&labels, "RE"), vec![2]);
    assert_eq!(value_list_entries(&labels, "KÖ"), vec![3]);
    assert_eq!(value_list_entries(&labels, "   "), vec![0, 1, 2, 3]);
    assert_eq!(value_list_entries(&labels, "x"), Vec::<usize>::new());
}

#[test]
fn select_all_shows_ticked_when_every_visible_value_is() {
    let visible = vec![Value::Int(1), Value::Int(2)];
    let all = vec![Value::Int(1), Value::Int(2), Value::Int(3)];
    let mut form = draft(ValueKind::Number);
    // Every value, and rows without one, start out ticked.
    assert!(form.select_all_checked(&visible, 2));
    form.empty = false;
    assert!(form.select_all_checked(&visible, 0));
    assert!(!form.select_all_checked(&visible, 2));
    form.empty = true;
    assert!(form.select_all_checked(&visible, 2));
    form.empty = false;
    // A search hides the rows without a value.
    form.search = " 1 ".into();
    assert!(form.select_all_checked(&visible, 2));
    form.search = String::new();
    form.tick_value(&Value::Int(2), false, &all);
    assert!(!form.select_all_checked(&visible, 0));
    assert!(form.select_all_checked(&[Value::Int(1), Value::Int(3)].to_vec(), 0));
}

//! Editing: text read as a column's kind of value and written into a row,
//! validation, and batches of unsaved changes.

#![allow(clippy::unwrap_used, clippy::indexing_slicing)]

use chrono::{NaiveDate, NaiveDateTime};
use datagrid_core::{
    changed_columns, Cell, CellValue, Changes, ColumnId, ColumnSpec, EditError, EditRows,
    FromValue, GridLocale, GridRow, Pending, Timestamp, Value, ValueKind,
};

#[derive(Clone, Debug, PartialEq)]
struct User {
    id: u32,
    name: String,
    age: u32,
    score: Option<i64>,
    active: bool,
    team: String,
}

impl GridRow for User {
    type Key = u32;
    fn key(&self) -> u32 {
        self.id
    }
}

fn user(id: u32) -> User {
    User {
        id,
        name: format!("User {id}"),
        age: 30,
        score: Some(15),
        active: true,
        team: "Red".into(),
    }
}

fn columns() -> Vec<ColumnSpec> {
    vec![
        ColumnSpec::new("name".into()).with_value().with_setter(),
        ColumnSpec::new("age".into()).with_value().with_setter(),
        ColumnSpec::new("score".into()).with_value().with_setter(),
        ColumnSpec::new("active".into()).with_value().with_setter(),
        ColumnSpec::new("team".into())
            .with_value()
            .with_setter()
            .choices(vec![Value::from("Red"), Value::from("Blue")]),
        ColumnSpec::new("id".into()).with_value(),
        ColumnSpec::new("note".into()),
    ]
}

fn cells(user: &User) -> Vec<Cell<'_>> {
    vec![
        Cell { value: CellValue::Text(user.name.as_str()), text: None },
        Cell { value: CellValue::from(user.age), text: None },
        Cell { value: user.score.map_or(CellValue::Empty, CellValue::Int), text: None },
        Cell { value: CellValue::Bool(user.active), text: None },
        Cell { value: CellValue::Text(user.team.as_str()), text: None },
        Cell { value: CellValue::from(user.id), text: None },
        Cell { value: CellValue::Empty, text: None },
    ]
}

fn position(id: &str) -> usize {
    columns().iter().position(|column| column.id.as_str() == id).unwrap()
}

fn column(id: &str) -> ColumnSpec {
    columns().swap_remove(position(id))
}

/// The application's side of an edit: the setter of each column, then the
/// validator of the name column.
fn set(row: &mut User, id: &str, value: Option<Value>) -> Result<(), EditError> {
    match id {
        "name" => row.name = String::from_value(value)?,
        "age" => row.age = u32::from_value(value)?,
        "score" => row.score = Option::<i64>::from_value(value)?,
        "active" => row.active = bool::from_value(value)?,
        "team" => row.team = String::from_value(value)?,
        _ => return Err(EditError::Message(String::new())),
    }
    if id == "name" && row.name.trim().is_empty() {
        return Err(EditError::from("A name is required"));
    }
    Ok(())
}

fn apply_edit(row: &mut User, id: &str, text: &str, kind: ValueKind) -> Result<(), EditError> {
    let value = column(id).edit_value(text, kind)?;
    set(row, id, value)
}

fn edit(id: &str, text: &str, kind: ValueKind) -> Result<User, EditError> {
    let mut row = user(1);
    apply_edit(&mut row, id, text, kind).map(|()| row)
}

fn changed(changes: &Changes<User>, key: u32) -> Vec<ColumnId> {
    match (changes.original(&key), changes.current(&key)) {
        (Some(original), Some(current)) => changed_columns(&columns(), &cells(original), &cells(current)),
        _ => Vec::new(),
    }
}

#[test]
fn text_is_read_as_the_columns_kind() {
    assert_eq!(edit("age", "41", ValueKind::Number).unwrap().age, 41);
    assert_eq!(edit("age", " 41 ", ValueKind::Number).unwrap().age, 41);
    assert!(!edit("active", "nein", ValueKind::Bool).unwrap().active);
    assert_eq!(
        edit("name", " Ada ", ValueKind::Text).unwrap().name,
        " Ada "
    );
}

#[test]
fn bad_text_is_refused_with_a_reason() {
    assert_eq!(
        edit("age", "old", ValueKind::Number),
        Err(EditError::Invalid(ValueKind::Number))
    );
    // Out of range for u32, or not a whole number.
    assert_eq!(
        edit("age", "-1", ValueKind::Number),
        Err(EditError::Invalid(ValueKind::Number))
    );
    assert_eq!(
        edit("age", "2.5", ValueKind::Number),
        Err(EditError::Invalid(ValueKind::Number))
    );
    assert_eq!(
        edit("active", "maybe", ValueKind::Bool),
        Err(EditError::Invalid(ValueKind::Bool))
    );
}

#[test]
fn only_optional_fields_take_an_empty_cell() {
    assert_eq!(
        edit("age", "  ", ValueKind::Number),
        Err(EditError::Required)
    );
    assert_eq!(edit("score", "", ValueKind::Number).unwrap().score, None);
    // Text has an empty value of its own; the validator decides.
    assert_eq!(
        edit("name", "", ValueKind::Text),
        Err(EditError::Message("A name is required".into()))
    );
}

#[test]
fn choices_limit_the_values() {
    assert_eq!(edit("team", "Blue", ValueKind::Text).unwrap().team, "Blue");
    assert_eq!(
        edit("team", "Green", ValueKind::Text),
        Err(EditError::NotAChoice)
    );
}

#[test]
fn a_column_without_a_setter_is_read_only() {
    let id = column("id");
    assert!(!id.is_editable());
    assert!(column("name").is_editable());
    let mut row = user(1);
    assert!(apply_edit(&mut row, "id", "7", ValueKind::Number).is_err());
    assert_eq!(row.id, 1);
}

#[test]
fn edit_text_reads_back_through_apply_edit() {
    let row = user(1);
    let cells_of_row = cells(&row);
    assert_eq!(column("age").edit_text(&cells_of_row[position("age")]), "30");
    let mut empty = row.clone();
    empty.score = None;
    assert_eq!(column("score").edit_text(&cells(&empty)[position("score")]), "");

    // What an editor starts with is accepted unchanged.
    for spec in columns().iter().filter(|spec| spec.is_editable()) {
        let cell = &cells_of_row[position(spec.id.as_str())];
        let kind = spec.value_kind(&vec![cell.value]).unwrap();
        let mut copy = row.clone();
        apply_edit(&mut copy, spec.id.as_str(), &spec.edit_text(cell), kind).unwrap();
        assert_eq!(copy, row, "{}", spec.id.as_str());
    }
}

#[test]
fn errors_speak_the_locale() {
    let german = GridLocale::german();
    assert_eq!(
        EditError::Invalid(ValueKind::Number).message(&german),
        "Bitte eine Zahl eingeben"
    );
    assert_eq!(
        EditError::Required.message(&german),
        "Bitte einen Wert eingeben"
    );
    assert_eq!(EditError::from("Too old").message(&german), "Too old");
}

#[test]
fn from_value_converts_the_field_types() {
    assert_eq!(
        i8::from_value(Some(Value::Int(300))),
        Err(EditError::Invalid(ValueKind::Number))
    );
    // Values hold no fractions here: a whole number reads as any integer type.
    assert_eq!(u64::from_value(Some(Value::Int(4))), Ok(4));
    assert_eq!(Option::<i32>::from_value(None), Ok(None));
    assert_eq!(String::from_value(Some(Value::Int(3))), Ok("3".into()));
    assert_eq!(bool::from_value(None), Err(EditError::Required));
}

#[test]
fn text_is_read_as_a_number_or_refused() {
    assert_eq!(u32::from_value(Some(Value::from(" 41 "))), Ok(41));
    assert_eq!(
        u32::from_value(Some(Value::from("-1"))),
        Err(EditError::Invalid(ValueKind::Number))
    );
    assert_eq!(
        u32::from_value(Some(Value::from("old"))),
        Err(EditError::Invalid(ValueKind::Number))
    );
    assert_eq!(u32::from_value(None), Err(EditError::Required));
    assert_eq!(bool::from_value(Some(Value::from("nein"))), Ok(false));
    assert_eq!(
        bool::from_value(Some(Value::from("maybe"))),
        Err(EditError::Invalid(ValueKind::Bool))
    );
    assert_eq!(Option::<u32>::from_value(Some(Value::from("7"))), Ok(Some(7)));
    assert_eq!(EditError::from("Too old"), EditError::Message("Too old".into()));
}

#[test]
fn changed_columns_compares_values() {
    let before = user(1);
    let mut after = before.clone();
    after.age = 31;
    after.score = None;
    let changed = changed_columns(&columns(), &cells(&before), &cells(&after));
    assert_eq!(changed, [ColumnId::from("age"), ColumnId::from("score")]);
    assert!(changed_columns(&columns(), &cells(&before), &cells(&before)).is_empty());
}

#[test]
fn changes_keep_one_entry_per_row() {
    let mut changes = Changes::new();
    let original = user(1);
    let mut first = original.clone();
    first.age = 40;
    let mut second = first.clone();
    second.name = "Ada".into();

    changes.update(original.clone(), first.clone());
    changes.update(first, second.clone());
    assert_eq!(changes.updated, vec![(original.clone(), second.clone())]);
    assert_eq!(changes.current(&1), Some(&second));
    assert_eq!(changes.original(&1), Some(&original));
    assert_eq!(
        changed(&changes, 1),
        [ColumnId::from("name"), ColumnId::from("age")]
    );

    // Edited back to how it was: nothing to save.
    changes.update(second, original.clone());
    assert!(changes.is_empty());
}

#[test]
fn deleting_an_edited_row_deletes_the_original() {
    let mut changes = Changes::new();
    let original = user(1);
    let mut edited = original.clone();
    edited.age = 50;
    changes.update(original.clone(), edited.clone());
    changes.delete(edited);
    assert!(changes.updated.is_empty());
    assert_eq!(changes.deleted, vec![original]);
    assert!(changes.is_deleted(&1));
    changes.restore(&1);
    assert!(changes.is_empty());
}

#[test]
fn an_added_row_that_is_deleted_leaves_no_trace() {
    let mut changes = Changes::new();
    changes.add(user(9));
    let mut edited = user(9);
    edited.age = 12;
    changes.update(user(9), edited.clone());
    assert_eq!(changes.added, vec![edited.clone()]);
    assert!(changes.updated.is_empty());
    changes.delete(edited);
    assert!(changes.is_empty());
}

/// Edits, deletions and restores in a fixed order, checked step by step
/// against the difference between the rows as they were and as they are.
#[test]
fn changes_match_the_difference() {
    enum Step {
        Update(u32, u32),
        Delete(u32),
        Restore(u32),
    }
    let steps = [
        Step::Update(0, 31),
        Step::Update(1, 29),
        Step::Delete(1),
        Step::Update(0, 30),
        Step::Update(2, 28),
        Step::Restore(1),
        Step::Delete(3),
        Step::Update(2, 32),
        Step::Delete(2),
        Step::Restore(2),
        Step::Update(3, 40),
        Step::Restore(3),
    ];
    let originals: Vec<User> = (0..4).map(user).collect();
    let mut rows = originals.clone();
    let mut deleted = [false; 4];
    let mut changes = Changes::new();

    for step in steps {
        match step {
            Step::Update(id, age) if !deleted[id as usize] => {
                let before = rows[id as usize].clone();
                rows[id as usize].age = age;
                changes.update(before, rows[id as usize].clone());
            }
            Step::Update(..) => {}
            Step::Delete(id) if !deleted[id as usize] => {
                deleted[id as usize] = true;
                changes.delete(rows[id as usize].clone());
            }
            Step::Delete(_) => {}
            Step::Restore(id) if deleted[id as usize] => {
                deleted[id as usize] = false;
                rows[id as usize] = originals[id as usize].clone();
                changes.restore(&id);
            }
            Step::Restore(_) => {}
        }

        for id in 0..4_u32 {
            let index = id as usize;
            assert_eq!(changes.is_deleted(&id), deleted[index]);
            let changed = !deleted[index] && rows[index] != originals[index];
            assert_eq!(changes.current(&id).is_some(), changed);
            if changed {
                assert_eq!(changes.current(&id), Some(&rows[index]));
                assert_eq!(changes.original(&id), Some(&originals[index]));
            }
        }
        assert!(changes.added.is_empty());
    }
}

#[test]
fn dates_are_edited_in_iso_and_local_forms() {
    let date = NaiveDate::from_ymd_opt(2026, 9, 18).unwrap();
    assert_eq!(
        NaiveDate::from_value(Some(Value::Text("2026-09-18".into()))),
        Ok(date)
    );
    assert_eq!(
        NaiveDate::from_value(Some(Value::Text("18.09.2026".into()))),
        Ok(date)
    );
    assert_eq!(
        NaiveDate::from_value(Some(Value::Text("someday".into()))),
        Err(EditError::Invalid(ValueKind::Date))
    );
}

#[test]
fn a_date_and_time_is_edited_as_one_moment() {
    let moment = NaiveDate::from_ymd_opt(2026, 9, 18)
        .unwrap()
        .and_hms_opt(14, 5, 0)
        .unwrap();
    assert_eq!(
        chrono::NaiveDateTime::from_value(Some(Value::Text("2026-09-18T14:05".into()))),
        Ok(moment)
    );
    assert_eq!(
        chrono::NaiveDateTime::from_value(None),
        Err(EditError::Required)
    );
}

#[test]
fn a_row_being_saved_is_shown_as_edited() {
    let mut rows: EditRows<User> = EditRows::new();
    let mut edited = user(1);
    edited.age = 44;
    rows.start_saving(edited.clone());
    assert!(rows.is_saving(&1));
    assert_eq!(rows.current(&1), Some(&edited));
    assert_eq!(rows.current(&2), None);

    // A local grid stops showing it once the save ends.
    rows.finish_saving(&1, false, true);
    assert!(!rows.is_saving(&1));
    assert_eq!(rows.current(&1), None);

    // A server-backed grid keeps showing it until the reload arrives.
    rows.start_saving(edited.clone());
    rows.finish_saving(&1, true, true);
    assert!(!rows.is_saving(&1));
    assert_eq!(rows.pending, vec![Pending { row: edited.clone(), confirmed: true }]);
    assert_eq!(rows.current(&1), Some(&edited));
    rows.drop_confirmed();
    assert_eq!(rows.current(&1), None);

    // A failed save is taken back.
    rows.start_saving(edited.clone());
    rows.finish_saving(&1, true, false);
    assert!(rows.pending.is_empty());
}

#[test]
fn a_batch_shows_its_changes_until_saved() {
    let mut rows: EditRows<User> = EditRows::new();
    let mut edited = user(3);
    edited.name = "Ada".into();
    rows.changes.update(user(3), edited.clone());
    assert_eq!(rows.current(&3), Some(&edited));

    rows.batch_saved(true);
    assert!(rows.changes.is_empty());
    assert_eq!(rows.current(&3), Some(&edited), "shown until the reload arrives");
    rows.drop_confirmed();
    assert_eq!(rows.current(&3), None);
}

#[test]
fn dates_read_as_chrono_values_inside_chronos_range() {
    // 1 January 262144 BCE and 31 December 262142 CE, chrono's first and last days.
    let first = NaiveDate::from_value(Some(Value::Date(-95_746_129))).unwrap();
    assert_eq!(first, NaiveDate::MIN);
    let last = NaiveDate::from_value(Some(Value::Date(95_745_399))).unwrap();
    assert_eq!(last, NaiveDate::MAX);
    assert_eq!(
        NaiveDate::from_value(Some(Value::Date(730_000))),
        Ok(NaiveDate::from_ymd_opt(1999, 9, 3).unwrap())
    );
    assert_eq!(
        NaiveDate::from_value(Some(Value::Date(95_745_400))),
        Err(EditError::Invalid(ValueKind::Date))
    );
    assert_eq!(
        NaiveDate::from_value(Some(Value::Date(-95_746_130))),
        Err(EditError::Invalid(ValueKind::Date))
    );
    assert_eq!(NaiveDate::from_value(None), Err(EditError::Required));
}

#[test]
fn date_times_read_as_chrono_values_with_leap_seconds() {
    let leap = Timestamp { days: 730_000, seconds: 86_399, nanos: 1_500_000_000 };
    assert!(NaiveDateTime::from_value(Some(Value::DateTime(leap))).is_ok());
    let noon = Timestamp { days: 730_000, seconds: 43_200, nanos: 0 };
    assert_eq!(
        NaiveDateTime::from_value(Some(Value::DateTime(noon))),
        Ok(NaiveDate::from_ymd_opt(1999, 9, 3).unwrap().and_hms_opt(12, 0, 0).unwrap())
    );
    let not_leap = Timestamp { days: 730_000, seconds: 86_398, nanos: 1_500_000_000 };
    assert_eq!(
        NaiveDateTime::from_value(Some(Value::DateTime(not_leap))),
        Err(EditError::Invalid(ValueKind::DateTime))
    );
    let past_midnight = Timestamp { days: 730_000, seconds: 86_400, nanos: 0 };
    assert_eq!(
        NaiveDateTime::from_value(Some(Value::DateTime(past_midnight))),
        Err(EditError::Invalid(ValueKind::DateTime))
    );
}

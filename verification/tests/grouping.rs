//! Grouping and aggregates: groups cover the filtered rows completely and
//! without overlap, pages cut the display rows, and a page made from a
//! view numbers its rows and groups from zero.

#![allow(clippy::unwrap_used, clippy::indexing_slicing)]

use datagrid_core::{
    compute_view, Aggregate, AggregateKind, Cell, CellValue, ColumnId, ColumnSpec, GridState,
    GridView, GroupKey, Page, PageState, SortState, Value, ViewRow,
};
use std::collections::HashSet;

#[derive(Clone, Debug, PartialEq)]
struct Row {
    id: usize,
    city: String,
    team: Option<i64>,
    score: Option<i64>,
}

fn columns() -> Vec<ColumnSpec> {
    vec![
        ColumnSpec::new("city".into())
            .with_value()
            .with_filter_text()
            .aggregate(Aggregate::Count)
            .aggregate(Aggregate::Min)
            .aggregate(Aggregate::Max),
        ColumnSpec::new("team".into()).with_value(),
        ColumnSpec::new("score".into())
            .with_value()
            .aggregate(Aggregate::Sum)
            .aggregate(Aggregate::Average)
            .aggregate(Aggregate::Min)
            .aggregate(Aggregate::Max)
            .aggregate(Aggregate::Count),
        ColumnSpec::new("weight".into())
            .with_value()
            .aggregate(Aggregate::Sum)
            .aggregate(Aggregate::custom("rows")),
    ]
}

fn int_cell(v: Option<i64>) -> CellValue<'static> {
    v.map_or(CellValue::Empty, CellValue::Int)
}

fn cells(rows: &[Row]) -> Vec<Vec<Cell<'_>>> {
    rows.iter()
        .map(|row| {
            vec![
                Cell { value: CellValue::Text(row.city.as_str()), text: Some(row.city.clone()) },
                Cell { value: int_cell(row.team), text: None },
                Cell { value: int_cell(row.score), text: None },
                Cell { value: CellValue::Empty, text: None },
            ]
        })
        .collect()
}

fn view_of(rows: &[Row], state: &GridState) -> GridView {
    compute_view(&cells(rows), &columns(), state)
}

fn rows() -> Vec<Row> {
    let row = |id, city: &str, team, score| Row { id, city: city.into(), team, score };
    vec![
        row(0, "Berlin", Some(1), Some(10)),
        row(1, "Hamburg", Some(2), Some(5)),
        row(2, "Berlin", Some(2), None),
        row(3, "Köln", None, Some(7)),
        row(4, "Hamburg", Some(1), Some(1)),
    ]
}

fn header_values(view: &GridView) -> Vec<(usize, Option<Value>, usize)> {
    view.rows
        .iter()
        .filter_map(|row| match *row {
            ViewRow::GroupHeader(group) => {
                let group = &view.groups[group];
                Some((group.level, group.value.clone(), group.count))
            }
            _ => None,
        })
        .collect()
}

#[test]
fn groups_follow_the_sort_direction_of_their_column() {
    let mut state = GridState::new();
    state.set_group_by(vec!["city".into()]);
    let view = view_of(&rows(), &state);
    let text = |city: &str| Some(Value::Text(city.into()));
    assert_eq!(
        header_values(&view),
        [(0, text("Berlin"), 2), (0, text("Hamburg"), 2), (0, text("Köln"), 1)]
    );

    state.sort = vec![SortState::desc("city"), SortState::asc("score")];
    let view = view_of(&rows(), &state);
    assert_eq!(
        header_values(&view),
        [(0, text("Köln"), 1), (0, text("Hamburg"), 2), (0, text("Berlin"), 2)]
    );
    // Inside a group, the rest of the sort applies: Hamburg by score.
    let hamburg = view
        .rows
        .iter()
        .skip_while(|row| **row != ViewRow::GroupHeader(1))
        .skip(1)
        .take(2)
        .map(|row| row.data_index().unwrap())
        .collect::<Vec<_>>();
    assert_eq!(hamburg, [4, 1]);
}

#[test]
fn rows_without_a_value_form_the_last_group() {
    let mut state = GridState::new();
    state.set_group_by(vec!["team".into()]);
    let view = view_of(&rows(), &state);
    assert_eq!(
        header_values(&view),
        [(0, Some(Value::Int(1)), 2), (0, Some(Value::Int(2)), 2), (0, None, 1)]
    );
}

#[test]
fn a_collapsed_group_is_its_header_alone() {
    let mut state = GridState::new();
    state.set_group_by(vec!["city".into()]);
    let berlin = GroupKey(vec![Some(Value::Text("Berlin".into()))]);
    state.toggle_group(&berlin);
    assert!(!state.is_group_expanded(&berlin));

    let view = view_of(&rows(), &state);
    assert_eq!(view.rows[0], ViewRow::GroupHeader(0));
    assert!(!view.groups[0].expanded);
    // Straight on to Hamburg's header: no rows, no footer.
    assert_eq!(view.rows[1], ViewRow::GroupHeader(1));
    // The collapsed group still counts its rows and aggregates them.
    assert_eq!(view.groups[0].count, 2);
    assert_eq!(
        view.groups[0].aggregate(&"score".into(), &AggregateKind::Sum).unwrap().value,
        Some(Value::Int(10))
    );
    assert_eq!(view.filtered_len, 5);
    assert_eq!(view.indices, [1, 4, 3]);

    // Collapsing everything leaves the headers; expanding it all again brings
    // every row back, Berlin included.
    state.set_all_groups_expanded(false);
    let view = view_of(&rows(), &state);
    assert!(view.rows.iter().all(|row| matches!(row, ViewRow::GroupHeader(_))));
    state.toggle_group(&berlin);
    let view = view_of(&rows(), &state);
    assert_eq!(view.indices, [0, 2]);
    state.set_all_groups_expanded(true);
    let view = view_of(&rows(), &state);
    assert_eq!(view.indices.len(), 5);
}

#[test]
fn footers_follow_expanded_groups_when_a_column_aggregates() {
    let mut state = GridState::new();
    state.set_group_by(vec!["city".into(), "team".into()]);
    let view = view_of(&rows(), &state);
    // Berlin: header, team 1 (header, row, footer), team 2 (header, row,
    // footer), footer.
    assert_eq!(
        view.rows[..8],
        [
            ViewRow::GroupHeader(0),
            ViewRow::GroupHeader(1),
            ViewRow::Data(0),
            ViewRow::GroupFooter(1),
            ViewRow::GroupHeader(2),
            ViewRow::Data(2),
            ViewRow::GroupFooter(2),
            ViewRow::GroupFooter(0),
        ]
    );
    assert_eq!(view.groups[1].key.parent(), Some(view.groups[0].key.clone()));
    assert_eq!(view.group_levels, 2);

    // Without aggregates there is nothing for a footer to show.
    let plain = vec![ColumnSpec::new("city".into()).with_value()];
    let data = rows();
    let plain_cells: Vec<Vec<Cell<'_>>> = data
        .iter()
        .map(|row| vec![Cell { value: CellValue::Text(row.city.as_str()), text: None }])
        .collect();
    let view = compute_view(&plain_cells, &plain, &state);
    assert!(!view.rows.iter().any(|row| matches!(row, ViewRow::GroupFooter(_))));
    assert!(view.totals.is_empty());
}

#[test]
fn a_page_from_a_view_numbers_its_rows_and_groups_from_zero() {
    let mut state = GridState::paged(4);
    state.set_group_by(vec!["city".into()]);
    state.set_page(1);
    let view = view_of(&rows(), &state);
    let page = Page::from_view(&view, &rows());
    // Berlin fills the first page: header, two rows, footer. The second is
    // Hamburg's, numbered from zero again.
    assert_eq!(
        page.layout,
        [
            ViewRow::GroupHeader(0),
            ViewRow::Data(0),
            ViewRow::Data(1),
            ViewRow::GroupFooter(0),
        ]
    );
    assert_eq!(page.groups[0].value, Some(Value::Text("Hamburg".into())));
    assert_eq!(page.row_count, Some(11));
    assert_eq!(page.total, 5);
    assert_eq!(page.rows.iter().map(|row| row.id).collect::<Vec<_>>(), [1, 4]);

    // Without grouping, a page is its rows, as before.
    let plain = Page::from_view(&view_of(&rows(), &GridState::paged(2)), &rows());
    assert!(plain.layout.is_empty());
    assert_eq!(plain.row_count, None);
}

#[test]
fn a_page_names_each_group_once_and_skips_rows_past_the_end() {
    let mut view = view_of(&rows(), &GridState::paged(4));
    view.groups = view_of(&rows(), &{
        let mut s = GridState::new();
        s.set_group_by(vec!["city".into()]);
        s
    })
    .groups;
    view.group_levels = 1;
    view.rows = vec![
        ViewRow::GroupHeader(2),
        ViewRow::Data(3),
        ViewRow::GroupFooter(2),
        ViewRow::GroupHeader(0),
        ViewRow::Data(9),
        ViewRow::GroupHeader(7),
        ViewRow::Data(0),
    ];
    let page = Page::from_view(&view, &rows());
    assert_eq!(
        page.layout,
        [
            ViewRow::GroupHeader(0),
            ViewRow::Data(0),
            ViewRow::GroupFooter(0),
            ViewRow::GroupHeader(1),
            ViewRow::Data(1),
        ]
    );
    let cities: Vec<_> = page.groups.iter().map(|g| g.value.clone()).collect();
    assert_eq!(cities, [Some(Value::Text("Köln".into())), Some(Value::Text("Berlin".into()))]);
    assert_eq!(page.rows.iter().map(|row| row.id).collect::<Vec<_>>(), [3, 0]);
}

#[test]
fn totals_aggregate_every_filtered_row() {
    let mut state = GridState::new();
    state.set_filter("city", "r");
    let view = view_of(&rows(), &state);
    // Berlin, Hamburg, Berlin, Hamburg: scores 10, 5, 1 and one missing.
    let total = |column: &str, kind: AggregateKind| {
        view.totals
            .iter()
            .find(|a| a.column.as_str() == column && a.kind == kind)
            .unwrap()
            .value
            .clone()
    };
    assert_eq!(total("score", AggregateKind::Sum), Some(Value::Int(16)));
    assert_eq!(total("score", AggregateKind::Min), Some(Value::Int(1)));
    assert_eq!(total("score", AggregateKind::Max), Some(Value::Int(10)));
    assert_eq!(total("score", AggregateKind::Count), Some(Value::Int(3)));
    assert_eq!(total("city", AggregateKind::Min), Some(Value::Text("Berlin".into())));
    assert_eq!(total("city", AggregateKind::Max), Some(Value::Text("Hamburg".into())));
    assert_eq!(total("city", AggregateKind::Count), Some(Value::Int(4)));
    // A mean is fractional and a custom aggregate the application's.
    assert_eq!(total("score", AggregateKind::Average), None);
    assert_eq!(total("weight", AggregateKind::Custom("rows".into())), None);
    // Nothing to add up is no sum at all, not zero.
    assert_eq!(total("weight", AggregateKind::Sum), None);
    assert_eq!(view.totals.len(), 10);
}

/// Rows drawn from a small fixed generator, standing in for random ones.
fn generated_rows(seed: u64, len: usize) -> Vec<Row> {
    let mut x = seed.wrapping_mul(6364136223846793005).wrapping_add(1442695040888963407);
    let mut next = move |n: u64| {
        x = x.wrapping_mul(6364136223846793005).wrapping_add(1442695040888963407);
        (x >> 33) % n
    };
    let letters = ["a", "A", "b", "B"];
    (0..len)
        .map(|id| {
            let mut city = String::new();
            for _ in 0..next(3) {
                city.push_str(letters[next(4) as usize]);
            }
            let team = if next(4) == 0 { None } else { Some(next(3) as i64) };
            let score = if next(4) == 0 { None } else { Some(next(10) as i64 - 5) };
            Row { id, city, team, score }
        })
        .collect()
}

fn groupings() -> Vec<Vec<ColumnId>> {
    [vec!["city"], vec!["team"], vec!["city", "team"], vec!["team", "city"], vec!["team", "unknown"]]
        .into_iter()
        .map(|ids| ids.into_iter().map(ColumnId::from).collect())
        .collect()
}

/// Every group's rows, as the view's data rows under its header, when every
/// group is expanded and nothing is paged.
fn members(view: &GridView) -> Vec<(usize, Vec<usize>)> {
    let mut open: Vec<(usize, Vec<usize>)> = Vec::new();
    let mut done = Vec::new();
    for row in &view.rows {
        match *row {
            ViewRow::GroupHeader(group) => {
                let level = view.groups[group].level;
                while open.len() > level {
                    done.push(open.pop().unwrap());
                }
                open.push((group, Vec::new()));
            }
            ViewRow::Data(index) => {
                for (_, rows) in &mut open {
                    rows.push(index);
                }
            }
            ViewRow::GroupFooter(_) => {}
        }
    }
    done.extend(open);
    done
}

fn value_in(row: &Row, column: &str) -> Option<Value> {
    match column {
        "city" => Some(Value::Text(row.city.clone())),
        "team" => row.team.map(Value::Int),
        _ => row.score.map(Value::Int),
    }
}

#[test]
fn groups_cover_the_filtered_rows_without_overlap() {
    for seed in 0..12 {
        let rows = generated_rows(seed, (seed as usize * 7) % 41);
        for group_by in groupings() {
            for needle in ["", "a", "b"] {
                let mut state = GridState::new();
                state.set_filter("city", needle);
                state.set_group_by(group_by.clone());
                let view = view_of(&rows, &state);

                let filtered: HashSet<usize> =
                    view_of(&rows, &GridState { group_by: Vec::new(), ..state.clone() })
                        .indices
                        .into_iter()
                        .collect();
                assert_eq!(view.filtered_len, filtered.len());
                assert_eq!(view.indices.len(), filtered.len());
                assert_eq!(view.indices.iter().copied().collect::<HashSet<_>>(), filtered);

                let groups = members(&view);
                for level in 0..view.group_levels {
                    let mut seen = HashSet::new();
                    for (group, in_group) in groups.iter().filter(|(g, _)| view.groups[*g].level == level) {
                        let spec = &view.groups[*group];
                        assert_eq!(spec.count, in_group.len());
                        assert!(spec.count > 0);
                        for &index in in_group {
                            assert!(seen.insert(index), "row {index} in two groups");
                            assert_eq!(value_in(&rows[index], spec.column.as_str()), spec.value);
                        }
                    }
                    assert_eq!(seen, filtered);
                }

                // Siblings are numbered 1..=n, and their keys are distinct.
                let keys: HashSet<&GroupKey> = view.groups.iter().map(|group| &group.key).collect();
                assert_eq!(keys.len(), view.groups.len());
                for group in &view.groups {
                    assert!(group.position >= 1 && group.position <= group.siblings);
                    assert_eq!(group.key.depth(), group.level + 1);
                }
            }
        }
    }
}

#[test]
fn grouped_pages_cover_every_row_once() {
    for seed in 0..12 {
        let rows = generated_rows(seed + 100, (seed as usize * 5) % 41);
        for group_by in groupings() {
            for page_size in 1_usize..8 {
                let mut state = GridState::new();
                state.set_group_by(group_by.clone());
                let unpaged = view_of(&rows, &state);

                state.page = Some(PageState::new(page_size));
                let first = view_of(&rows, &state);
                assert_eq!(first.row_count, unpaged.rows.len());
                assert_eq!(first.page_count, unpaged.rows.len().div_ceil(page_size));

                let mut walked = Vec::new();
                for page in 0..first.page_count {
                    state.set_page(page);
                    let view = view_of(&rows, &state);
                    assert_eq!(view.row_offset, walked.len());
                    assert!(view.len() <= page_size);
                    walked.extend(view.rows);
                }
                assert_eq!(walked, unpaged.rows);
            }
        }
    }
}

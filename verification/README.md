# datagrid-core

The logic of a data grid — sorting, filtering, search, paging, selection,
keyboard navigation, grouping with aggregates, editing and change tracking, server
queries — written in Verus, with its behaviour stated in `requires` /
`ensures` contracts and proved.

## Layout

- `src/` is the verified library. Rows reach it as cells (`Cell`): each
  column's typed value and filter text, read by the application. Its
  modules:
  - `value`, `order`, `text`, `numbers`: values, their total order, text
    folding and trimming, decimal integers.
  - `filter`, `view`, `rowsort`, `grouping`, `distinct`: conditions and
    filters, the view of filtered, sorted, grouped and paged rows, stable
    sorting, group headers, rows and footers with their aggregates, value
    lists.
  - `state`, `remote`: the persisted grid state, server queries, pages, and
    the bookkeeping that drops stale answers.
  - `selection`, `navigate`, `session`, `keys`: selected keys, keyboard
    focus, where an edit shows and where `Tab` moves it, and what a key
    press does on the grid and in an editor.
  - `edit`, `changes`, `draft`: reading edited text, unsaved changes, and
    the filter menu's form with its searchable value list.
  - `locale`, `format`, `column`, `group`, `aggregate`, `dates`: texts and
    number formats, column settings, groups and aggregates, and dates
    through `chrono`.
- `app/` holds what the verifier does not take: columns that read rows
  through closures, widths and virtual scrolling in pixels, fractional
  aggregates (a mean, a sum past `i64`) and custom ones, and the `async` trait a server-backed grid loads through.
- `tests/` exercises the library from outside.

The laws the library keeps — that the sort order is total and sorting
stable, that pages partition the filtered rows, that a late answer to an
older request is dropped, that recorded changes are the difference between
the rows as they were and as they are, and others — are public proof
functions next to the code they speak of.

# promo_report

Tracks customers' purchases against the rules of a promotion and reports,
for every customer, how often each section of the promotion is qualified
for and what is still to be bought for the next qualification.

- `src/` is the library, verified with Verus: reading integers and kinds
  from promotion files, the sorted text-keyed map of customers, recording a
  purchase row into a customer's promotion, working out qualification
  counts, the report text, calendar dates and their spreadsheet serial
  numbers, CSV records, the texts taken from a spreadsheet archive, and
  the decisions the spreadsheet reader makes on
  headers, cells and rows.
- `app/` holds what reads files, spreadsheets and JSON (serde forms of the
  library's types), the floating-point parts, and the writing of the report.
- `tests/` runs the library on concrete values.

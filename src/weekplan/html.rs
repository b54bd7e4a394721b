//! The plan drawn as an HTML page: one column per weekday, one row per slot.
use vstd::prelude::*;

use super::time::time_text;
use super::weekday::{day_at, day_name};
use super::WeekPlan;

verus! {

/// Everything of the page before the weekday headers.
pub const PAGE_HEAD: &'static str = r#"<!DOCTYPE html>
    <html lang="en">
    <head>
        <meta charset="UTF-8">
        <meta name="viewport" content="width=device-width, initial-scale=1.0">
        <title>Styled Table</title>
        <style>
        
            body {
                font-family: Arial, sans-serif;
                display: flex;
                justify-content: center;
                align-items: center;
                min-height: 100vh;
                margin: 0;
                background-color: #f0f0f0;
            }
            .schedule-table {
                border-collapse: collapse;
                box-shadow: 0 0 20px rgba(0, 0, 0, 0.1);
                background-color: white;
            }
            .schedule-table th,
            .schedule-table td {
                padding: 12px 15px;
                text-align: center;
            }
            .schedule-table th {
                background-color: #009879;
                color: white;
                text-transform: uppercase;
                font-weight: bold;
            }
            .schedule-table td {
                border-bottom: 1px solid #dddddd;
            }
            .schedule-table tr:nth-child(even) {
                background-color: #f3f3f3;
            }
            .schedule-table tr:last-of-type {
                border-bottom: 2px solid #009879;
            }
            .schedule-table tr:hover {
                background-color: #f5f5f5;
                transition: background-color 0.3s ease;
            }
            .header-row th:first-child {
                background-color: #007965;
            }
        
        </style>
    </head>
    <body>
        <table class="schedule-table">
            <tr class="header-row">
                <th></th>"#;

/// Everything of the page after the last row.
pub const PAGE_END: &'static str = r#"    </table>
    </body>
    </html>"#;

/// The header cells of the first `n` weekdays.
pub open spec fn day_headers(n: int) -> Seq<char>
    decreases n,
{
    if n <= 0 {
        Seq::empty()
    } else {
        day_headers(n - 1) + "            <th>"@ + day_name(day_at(n - 1)) + "</th>\n"@
    }
}

/// The cells of slot `k` for the first `n` weekdays.
pub open spec fn row_cells(plan: WeekPlan, k: int, n: int) -> Seq<char>
    decreases n,
{
    if n <= 0 {
        Seq::empty()
    } else {
        row_cells(plan, k, n - 1) + "            <td>"@ + plan.cell_label(day_at(n - 1), k) + "</td>\n"@
    }
}

/// The row of slot `k`: its start time, then its cell for each weekday.
pub open spec fn slot_row(plan: WeekPlan, k: int) -> Seq<char> {
    let t = plan.grid().slot_time(k);
    "        <tr>\n"@ + "            <th>"@ + time_text((t / 60) as nat, (t % 60) as nat) + "</th>\n"@
        + row_cells(plan, k, 7) + "        </tr>\n"@
}

/// The rows of the first `n` slots.
pub open spec fn slot_rows(plan: WeekPlan, n: int) -> Seq<char>
    decreases n,
{
    if n <= 0 {
        Seq::empty()
    } else {
        slot_rows(plan, n - 1) + slot_row(plan, n - 1)
    }
}

/// The whole page of a plan.
pub open spec fn page(plan: WeekPlan) -> Seq<char> {
    PAGE_HEAD@ + day_headers(7) + "        </tr>\n"@ + slot_rows(plan, plan.grid().slots as int) + PAGE_END@
}

impl WeekPlan {
    /// The plan as an HTML page with a table: weekdays as columns, Monday
    /// first; slots as rows, earliest first; empty cells where nothing is
    /// booked.
    pub fn to_html(&self) -> (r: String)
        requires
            self.wf(),
        ensures
            r@ == page(*self),
    {
        let (weekdays, times, table) = self.to_table();
        let ghost g = self.grid();
        let mut html = String::from_str(PAGE_HEAD);
        let mut d: usize = 0;
        while d < weekdays.len()
            invariant
                weekdays@.len() == 7,
                forall|i: int| 0 <= i < 7 ==> weekdays@[i] == day_at(i),
                d <= 7,
                html@ == PAGE_HEAD@ + day_headers(d as int),
            decreases 7 - d,
        {
            html.append("            <th>");
            html.append(weekdays[d].name());
            html.append("</th>\n");
            d = d + 1;
        }
        html.append("        </tr>\n");
        let ghost top = html@;
        let n = times.len();
        let total = table.len();
        let mut k: usize = 0;
        while k < n
            invariant
                self.wf(),
                g == self.grid(),
                n == times@.len(),
                n == g.slots,
                weekdays@.len() == 7,
                forall|i: int| 0 <= i < 7 ==> weekdays@[i] == day_at(i),
                forall|i: int| 0 <= i < g.slots ==> (#[trigger] times@[i]).spec_minutes() == g.slot_time(i),
                table@.len() == 7 * g.slots,
                total == table@.len(),
                forall|d: int, i: int|
                    0 <= d < 7 && 0 <= i < g.slots ==> (#[trigger] table@[d * g.slots + i])@ == self.cell_label(
                        day_at(d),
                        i,
                    ),
                k <= n,
                html@ == top + slot_rows(*self, k as int),
            decreases n - k,
        {
            let ghost before = html@;
            html.append("        <tr>\n");
            html.append("            <th>");
            let label = times[k].to_string();
            html.append(label.as_str());
            html.append("</th>\n");
            let ghost mid = html@;
            let mut j: usize = 0;
            while j < 7
                invariant
                    j <= 7,
                    k < n,
                    n == g.slots,
                    table@.len() == 7 * g.slots,
                    total == table@.len(),
                    forall|d: int, i: int|
                        0 <= d < 7 && 0 <= i < g.slots ==> (#[trigger] table@[d * g.slots + i])@
                            == self.cell_label(day_at(d), i),
                    html@ == mid + row_cells(*self, k as int, j as int),
                decreases 7 - j,
            {
                proof {
                    assert(0 <= j * n + k < 7 * n) by (nonlinear_arith)
                        requires j < 7, k < n;
                    assert(j * n + k < total);
                }
                html.append("            <td>");
                html.append(table[k + j * n].as_str());
                html.append("</td>\n");
                proof {
                    assert(k + j * n == j * g.slots + k);
                }
                j = j + 1;
            }
            html.append("        </tr>\n");
            proof {
                assert(html@ =~= before + slot_row(*self, k as int));
            }
            k = k + 1;
        }
        html.append(PAGE_END);
        html
    }
}

} // verus!

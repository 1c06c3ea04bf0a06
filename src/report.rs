//! The low-stock report: each item that has a rule, flagged critical when its
//! quantity is below the rule's threshold.
use vstd::prelude::*;

verus! {

/// A row of the report query: an item that has a rule, and its warehouse.
#[derive(Debug)]
pub struct ReportRow {
    pub warehouse: String,
    pub item: String,
    pub quantity: i64,
    pub threshold: i64,
}

/// The mathematical value of a [`ReportRow`].
pub struct ReportRowV {
    pub warehouse: Seq<char>,
    pub item: Seq<char>,
    pub quantity: int,
    pub threshold: int,
}

impl View for ReportRow {
    type V = ReportRowV;

    open spec fn view(&self) -> ReportRowV {
        ReportRowV {
            warehouse: self.warehouse@,
            item: self.item@,
            quantity: self.quantity as int,
            threshold: self.threshold as int,
        }
    }
}

/// One line of a report.
#[derive(Debug, PartialEq, Eq)]
pub struct ReportLine {
    pub item: String,
    pub quantity: i64,
    pub threshold: i64,
    pub critical: bool,
}

/// The mathematical value of a [`ReportLine`].
pub struct ReportLineV {
    pub item: Seq<char>,
    pub quantity: int,
    pub threshold: int,
    pub critical: bool,
}

impl View for ReportLine {
    type V = ReportLineV;

    open spec fn view(&self) -> ReportLineV {
        ReportLineV {
            item: self.item@,
            quantity: self.quantity as int,
            threshold: self.threshold as int,
            critical: self.critical,
        }
    }
}

/// The report of one warehouse.
#[derive(Debug)]
pub struct WarehouseReport {
    pub warehouse: String,
    pub lines: Vec<ReportLine>,
}

impl View for WarehouseReport {
    type V = (Seq<char>, Seq<ReportLineV>);

    open spec fn view(&self) -> (Seq<char>, Seq<ReportLineV>) {
        (self.warehouse@, self.lines@.map_values(|l: ReportLine| l@))
    }
}

/// An item is critical when its quantity is strictly below the threshold.
pub open spec fn critical(quantity: int, threshold: int) -> bool {
    quantity < threshold
}

/// The report line of a row.
pub open spec fn line_of(r: ReportRowV) -> ReportLineV {
    ReportLineV {
        item: r.item,
        quantity: r.quantity,
        threshold: r.threshold,
        critical: critical(r.quantity, r.threshold),
    }
}

/// The report lines of rows, in order.
pub open spec fn lines_of(rows: Seq<ReportRow>) -> Seq<ReportLineV> {
    rows.map_values(|r: ReportRow| line_of(r@))
}

/// Rows split into runs of consecutive rows of one warehouse, each run with
/// its warehouse and its lines.
pub open spec fn groups_of(rows: Seq<ReportRow>) -> Seq<(Seq<char>, Seq<ReportLineV>)>
    decreases rows.len(),
{
    if rows.len() == 0 {
        Seq::empty()
    } else {
        let g = groups_of(rows.drop_last());
        let r = rows.last()@;
        if g.len() > 0 && g.last().0 == r.warehouse {
            g.update(g.len() - 1, (r.warehouse, g.last().1.push(line_of(r))))
        } else {
            g.push((r.warehouse, seq![line_of(r)]))
        }
    }
}

/// Whether an item of `quantity` is critical under the rule `threshold`.
pub fn is_critical(quantity: i64, threshold: i64) -> (r: bool)
    ensures
        r == critical(quantity as int, threshold as int),
{
    quantity < threshold
}

/// The report line of `row`.
pub fn report_line(row: &ReportRow) -> (r: ReportLine)
    ensures
        r@ == line_of(row@),
{
    ReportLine {
        item: row.item.clone(),
        quantity: row.quantity,
        threshold: row.threshold,
        critical: is_critical(row.quantity, row.threshold),
    }
}

/// The report lines of `rows`, in order: the report of one warehouse.
pub fn report_lines(rows: &[ReportRow]) -> (r: Vec<ReportLine>)
    ensures
        r@.map_values(|l: ReportLine| l@) == lines_of(rows@),
{
    let mut out: Vec<ReportLine> = Vec::new();
    let mut i: usize = 0;
    while i < rows.len()
        invariant
            i <= rows@.len(),
            out@.map_values(|l: ReportLine| l@) == lines_of(rows@.subrange(0, i as int)),
        decreases rows@.len() - i,
    {
        let ghost pre = out@;
        out.push(report_line(&rows[i]));
        proof {
            assert(out@.map_values(|l: ReportLine| l@) =~= pre.map_values(|l: ReportLine| l@).push(
                line_of(rows@[i as int]@),
            ));
            assert(lines_of(rows@.subrange(0, i + 1)) =~= lines_of(rows@.subrange(0, i as int)).push(
                line_of(rows@[i as int]@),
            ));
        }
        i = i + 1;
    }
    proof {
        assert(rows@.subrange(0, rows@.len() as int) =~= rows@);
    }
    out
}

/// The report of every warehouse, from rows ordered by warehouse: one section
/// for each run of consecutive rows of one warehouse, in order.
pub fn group_report(rows: &[ReportRow]) -> (r: Vec<WarehouseReport>)
    ensures
        r@.map_values(|g: WarehouseReport| g@) == groups_of(rows@),
{
    let mut done: Vec<WarehouseReport> = Vec::new();
    let mut current = WarehouseReport { warehouse: String::new(), lines: Vec::new() };
    let mut i: usize = 0;
    while i < rows.len()
        invariant
            i <= rows@.len(),
            i == 0 ==> done@.len() == 0,
            i > 0 ==> done@.map_values(|g: WarehouseReport| g@).push(current@) == groups_of(
                rows@.subrange(0, i as int),
            ),
        decreases rows@.len() - i,
    {
        let row = &rows[i];
        let line = report_line(row);
        let ghost before = rows@.subrange(0, i as int);
        proof {
            assert(rows@.subrange(0, i + 1).drop_last() =~= before);
            assert(rows@.subrange(0, i + 1).last() == rows@[i as int]);
        }
        if i > 0 && current.warehouse == row.warehouse {
            let ghost pre = current@;
            current.lines.push(line);
            proof {
                assert(current@ =~= (pre.0, pre.1.push(line_of(row@))));
                let g = groups_of(before);
                assert(g =~= done@.map_values(|g: WarehouseReport| g@).push(pre));
                assert(done@.map_values(|g: WarehouseReport| g@).push(current@) =~= g.update(
                    g.len() - 1,
                    (row@.warehouse, g.last().1.push(line_of(row@))),
                ));
            }
        } else {
            let ghost pre_done = done@.map_values(|g: WarehouseReport| g@);
            let ghost pre = current@;
            let next = WarehouseReport { warehouse: row.warehouse.clone(), lines: vec![line] };
            if i > 0 {
                done.push(current);
                proof {
                    assert(done@.map_values(|g: WarehouseReport| g@) =~= pre_done.push(pre));
                }
            }
            current = next;
            proof {
                assert(current@.1 =~= seq![line_of(row@)]);
                if i > 0 {
                    assert(groups_of(before) =~= done@.map_values(|g: WarehouseReport| g@));
                } else {
                    assert(before =~= Seq::<ReportRow>::empty());
                    assert(done@.map_values(|g: WarehouseReport| g@) =~= Seq::empty());
                }
                let g = groups_of(before);
                assert(!(g.len() > 0 && g.last().0 == row@.warehouse));
                assert(groups_of(rows@.subrange(0, i + 1)) == g.push(
                    (row@.warehouse, seq![line_of(row@)]),
                ));
                assert(done@.map_values(|g: WarehouseReport| g@).push(current@) =~= groups_of(
                    rows@.subrange(0, i + 1),
                ));
            }
        }
        i = i + 1;
    }
    proof {
        assert(rows@.subrange(0, rows@.len() as int) =~= rows@);
    }
    if i > 0 {
        let ghost pre_done = done@.map_values(|g: WarehouseReport| g@);
        done.push(current);
        proof {
            assert(done@.map_values(|g: WarehouseReport| g@) =~= pre_done.push(current@));
        }
    } else {
        proof {
            assert(done@.map_values(|g: WarehouseReport| g@) =~= Seq::empty());
        }
    }
    done
}

} // verus!

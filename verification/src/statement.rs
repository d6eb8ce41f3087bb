//! Reading a bank statement: only lines that name both their category and
//! their parent category take part in the bookkeeping.
use vstd::prelude::*;
use crate::records::{StatementRecord, StatementRow, StatementLine, statement_lines};

verus! {

/// The lines of `records` whose category and parent category are both
/// present, in the order of the statement.
pub open spec fn categorised(records: Seq<StatementRecord>) -> Seq<StatementLine>
    decreases records.len(),
{
    if records.len() == 0 {
        Seq::empty()
    } else {
        let rest = categorised(records.drop_last());
        let r = records.last();
        match (r.category, r.parent_category) {
            (Some(c), Some(p)) => rest.push(
                StatementLine {
                    category: c@,
                    parent_category: p@,
                    money_in: r.money_in,
                    money_out: r.money_out,
                    fee: r.fee,
                },
            ),
            _ => rest,
        }
    }
}

/// The record names both its category and its parent category.
pub open spec fn has_categories(r: StatementRecord) -> bool {
    r.category is Some && r.parent_category is Some
}

/// The line a record with both categories gives: its cells as they are.
pub open spec fn line_of(r: StatementRecord) -> StatementLine {
    StatementLine {
        category: r.category->Some_0@,
        parent_category: r.parent_category->Some_0@,
        money_in: r.money_in,
        money_out: r.money_out,
        fee: r.fee,
    }
}

/// The records that name both categories, in the order of the statement,
/// each taken as the line it gives.
pub open spec fn kept_lines(records: Seq<StatementRecord>) -> Seq<StatementLine> {
    records.filter(|r: StatementRecord| has_categories(r)).map_values(|r: StatementRecord| line_of(r))
}

/// The lines kept of a statement are exactly its records that name both
/// categories, whatever their money cells hold: in order, and with their
/// cells unchanged.
pub proof fn law_categorised_keeps_every_categorised_record(records: Seq<StatementRecord>)
    ensures
        categorised(records) == kept_lines(records),
    decreases records.len(),
{
    reveal_with_fuel(Seq::<_>::filter, 1);
    if records.len() > 0 {
        law_categorised_keeps_every_categorised_record(records.drop_last());
        let pred = |r: StatementRecord| has_categories(r);
        let f = |r: StatementRecord| line_of(r);
        let before = records.drop_last().filter(pred);
        if has_categories(records.last()) {
            assert(records.filter(pred) == before.push(records.last()));
            assert(before.push(records.last()).map_values(f) =~= before.map_values(f).push(
                line_of(records.last()),
            ));
        } else {
            assert(records.filter(pred) == before);
        }
        assert(categorised(records) =~= kept_lines(records));
    }
}

/// Counting the kept lines: there is one for each record that names both
/// categories, and the record at index `i` that does gives the kept line
/// whose index is the number of such records before it.
pub proof fn law_categorised_kth_line(records: Seq<StatementRecord>, i: int)
    requires
        0 <= i < records.len(),
        has_categories(records[i]),
    ensures
        categorised(records).len() == records.filter(|r: StatementRecord| has_categories(r)).len(),
        ({
            let k = records.take(i).filter(|r: StatementRecord| has_categories(r)).len() as int;
            k < categorised(records).len() && categorised(records)[k] == line_of(records[i])
        }),
{
    law_categorised_keeps_every_categorised_record(records);
    let pred = |r: StatementRecord| has_categories(r);
    let head = records.take(i + 1);
    let tail = records.skip(i + 1);
    assert(records =~= head + tail);
    Seq::filter_distributes_over_add(head, tail, pred);
    assert(head =~= records.take(i).push(records[i]));
    records.take(i).lemma_filter_push(records[i], pred);
    let k = records.take(i).filter(pred).len() as int;
    assert(records.filter(pred)[k] == records[i]);
}

/// Keeps the statement lines that carry a category and a parent category.
pub fn keep_categorised(records: &Vec<StatementRecord>) -> (rows: Vec<StatementRow>)
    ensures
        statement_lines(rows@) == categorised(records@),
        statement_lines(rows@) == kept_lines(records@),
{
    proof {
        law_categorised_keeps_every_categorised_record(records@);
    }
    let mut rows: Vec<StatementRow> = Vec::new();
    let n = records.len();
    for i in 0..n
        invariant
            n == records.len(),
            statement_lines(rows@) == categorised(records@.take(i as int)),
    {
        let r = &records[i];
        assert(records@.take(i + 1).drop_last() =~= records@.take(i as int));
        match (&r.category, &r.parent_category) {
            (Some(c), Some(p)) => {
                rows.push(
                    StatementRow {
                        category: c.clone(),
                        parent_category: p.clone(),
                        money_in: r.money_in,
                        money_out: r.money_out,
                        fee: r.fee,
                    },
                );
                assert(statement_lines(rows@) =~= categorised(records@.take(i + 1)));
            },
            _ => {
                assert(statement_lines(rows@) =~= categorised(records@.take(i + 1)));
            },
        }
    }
    assert(records@.take(n as int) =~= records@);
    rows
}

/// Which statement lines carry both their categories: the lines that
/// `keep_categorised` keeps, marked in place.
pub fn categorised_mask(records: &Vec<StatementRecord>) -> (mask: Vec<bool>)
    ensures
        mask@.len() == records@.len(),
        forall|i: int|
            0 <= i < records@.len() ==> mask@[i] == (#[trigger] records@[i].category is Some
                && records@[i].parent_category is Some),
{
    let mut mask: Vec<bool> = Vec::new();
    let n = records.len();
    for i in 0..n
        invariant
            n == records.len(),
            mask@.len() == i,
            forall|j: int|
                0 <= j < i ==> mask@[j] == (#[trigger] records@[j].category is Some
                    && records@[j].parent_category is Some),
    {
        mask.push(records[i].category.is_some() && records[i].parent_category.is_some());
    }
    mask
}

} // verus!

//! The period summary: the statement grouped by parent category, joined with
//! the budget and with the previous summary, sorted by parent category.
use vstd::prelude::*;
use crate::budget::blank_line;
use crate::records::{opt_text, summary_lines, BudgetRow, StatementRow, SummaryLine, SummaryRow};
use crate::text::{insert_sorted_text, lemma_sorted_distinct, lemma_strictly_sorted_unique, sorted_distinct, strictly_sorted, texts, text_lt};

verus! {

/// The parent category of every statement line, in order.
pub open spec fn parent_categories(st: Seq<StatementRow>) -> Seq<Seq<char>> {
    st.map_values(|r: StatementRow| r.parent_category@)
}

/// `keys` lists each parent category of `st` once, in increasing order.
pub open spec fn is_category_list(keys: Seq<Seq<char>>, st: Seq<StatementRow>) -> bool {
    &&& strictly_sorted(keys)
    &&& forall|k: Seq<char>| keys.contains(k) <==> parent_categories(st).contains(k)
}

/// The parent categories of `st`, each once, in increasing order.
pub open spec fn summary_categories(st: Seq<StatementRow>) -> Seq<Seq<char>> {
    sorted_distinct(parent_categories(st))
}

/// `summary_categories` lists each parent category once, in increasing order.
pub proof fn lemma_summary_categories(st: Seq<StatementRow>)
    ensures
        is_category_list(summary_categories(st), st),
{
    lemma_sorted_distinct(parent_categories(st));
}

/// The three money columns of a statement.
#[derive(Clone, Copy, Debug, PartialEq, Eq, Structural)]
pub enum Flow {
    MoneyIn,
    MoneyOut,
    Fee,
}

/// The amount a statement line holds in a money column; an empty cell counts
/// as nothing.
pub open spec fn flow_amount(r: StatementRow, f: Flow) -> int {
    let cell = match f {
        Flow::MoneyIn => r.money_in,
        Flow::MoneyOut => r.money_out,
        Flow::Fee => r.fee,
    };
    match cell {
        Some(v) => v as int,
        None => 0,
    }
}

/// The sum of a money column over the statement lines of one parent category.
pub open spec fn category_total(st: Seq<StatementRow>, key: Seq<char>, f: Flow) -> int
    decreases st.len(),
{
    if st.len() == 0 {
        0
    } else {
        category_total(st.drop_last(), key, f) + if st.last().parent_category@ == key {
            flow_amount(st.last(), f)
        } else {
            0
        }
    }
}

/// The budget amounts of the budget lines for `key`, in budget order.
pub open spec fn budget_matches(budget: Seq<BudgetRow>, key: Seq<char>) -> Seq<Option<i64>>
    decreases budget.len(),
{
    if budget.len() == 0 {
        Seq::empty()
    } else {
        let rest = budget_matches(budget.drop_last(), key);
        if budget.last().category matches Some(c) && c@ == key {
            rest.push(budget.last().budget_amount)
        } else {
            rest
        }
    }
}

/// The balances of the previous summary's lines for `key`, in their order.
pub open spec fn previous_matches(previous: Seq<SummaryRow>, key: Seq<char>) -> Seq<
    Option<i64>,
>
    decreases previous.len(),
{
    if previous.len() == 0 {
        Seq::empty()
    } else {
        let rest = previous_matches(previous.drop_last(), key);
        if previous.last().parent_category matches Some(c) && c@ == key {
            rest.push(previous.last().balance)
        } else {
            rest
        }
    }
}

/// A left join keeps a line without a partner once, with an empty cell.
pub open spec fn left_join(matches: Seq<Option<i64>>) -> Seq<Option<i64>> {
    if matches.len() == 0 {
        seq![None]
    } else {
        matches
    }
}

/// The balance a category carries out: what came in, went out and was paid
/// in fees, less the budget, plus the balance carried in. It is empty when
/// the budget or the previous balance is.
pub open spec fn balance(
    money_in: int,
    money_out: int,
    fee: int,
    budget: Option<i64>,
    previous: Option<i64>,
) -> Option<int> {
    match (budget, previous) {
        (Some(b), Some(p)) => Some(money_in + money_out + fee - b + p),
        _ => None,
    }
}

/// The value lies in the range of `i64`.
pub open spec fn fits(v: int) -> bool {
    i64::MIN <= v <= i64::MAX
}

/// The summary line of one category for one budget line and one previous line.
pub open spec fn summary_line(
    key: Seq<char>,
    money_in: int,
    money_out: int,
    fee: int,
    budget: Option<i64>,
    previous: Option<i64>,
) -> SummaryLine {
    SummaryLine {
        parent_category: Some(key),
        money_in: Some(money_in as i64),
        money_out: Some(money_out as i64),
        fee: Some(fee as i64),
        budget_amount: budget,
        previous_balance: previous,
        balance: match balance(money_in, money_out, fee, budget, previous) {
            Some(v) => Some(v as i64),
            None => None,
        },
    }
}

/// The lines of one category: one for each budget line and previous line,
/// budget lines outermost.
pub open spec fn joined_lines(
    key: Seq<char>,
    money_in: int,
    money_out: int,
    fee: int,
    budgets: Seq<Option<i64>>,
    previous: Seq<Option<i64>>,
) -> Seq<SummaryLine>
    decreases budgets.len(),
{
    if budgets.len() == 0 {
        Seq::empty()
    } else {
        joined_lines(key, money_in, money_out, fee, budgets.drop_last(), previous)
            + previous.map_values(
            |p: Option<i64>| summary_line(key, money_in, money_out, fee, budgets.last(), p),
        )
    }
}

/// The summary lines of the category `key`.
pub open spec fn category_lines(
    st: Seq<StatementRow>,
    budget: Seq<BudgetRow>,
    previous: Seq<SummaryRow>,
    key: Seq<char>,
) -> Seq<SummaryLine> {
    joined_lines(
        key,
        category_total(st, key, Flow::MoneyIn),
        category_total(st, key, Flow::MoneyOut),
        category_total(st, key, Flow::Fee),
        left_join(budget_matches(budget, key)),
        left_join(previous_matches(previous, key)),
    )
}

/// The summary lines of the categories `keys`, in that order.
pub open spec fn lines_for(
    st: Seq<StatementRow>,
    budget: Seq<BudgetRow>,
    previous: Seq<SummaryRow>,
    keys: Seq<Seq<char>>,
) -> Seq<SummaryLine>
    decreases keys.len(),
{
    if keys.len() == 0 {
        Seq::empty()
    } else {
        lines_for(st, budget, previous, keys.drop_last()) + category_lines(
            st,
            budget,
            previous,
            keys.last(),
        )
    }
}

/// The period summary: the lines of every parent category of the
/// statement, in increasing order of parent category.
pub open spec fn period_summary(
    st: Seq<StatementRow>,
    budget: Seq<BudgetRow>,
    previous: Seq<SummaryRow>,
) -> Seq<SummaryLine> {
    lines_for(st, budget, previous, summary_categories(st))
}

/// Every total and every balance of the category `key` fits in an `i64`.
pub open spec fn category_fits(
    st: Seq<StatementRow>,
    budget: Seq<BudgetRow>,
    previous: Seq<SummaryRow>,
    key: Seq<char>,
) -> bool {
    let i = category_total(st, key, Flow::MoneyIn);
    let o = category_total(st, key, Flow::MoneyOut);
    let f = category_total(st, key, Flow::Fee);
    let bs = left_join(budget_matches(budget, key));
    let ps = left_join(previous_matches(previous, key));
    &&& fits(i)
    &&& fits(o)
    &&& fits(f)
    &&& forall|x: int, y: int|
        0 <= x < bs.len() && 0 <= y < ps.len() ==> (#[trigger] balance(i, o, f, bs[x], ps[y]) matches Some(
            v,
        ) ==> fits(v))
}

/// Every total and balance of the summary fits in an `i64`.
pub open spec fn summary_fits(
    st: Seq<StatementRow>,
    budget: Seq<BudgetRow>,
    previous: Seq<SummaryRow>,
) -> bool {
    forall|k: Seq<char>|
        parent_categories(st).contains(k) ==> #[trigger] category_fits(st, budget, previous, k)
}

/// The parent categories of a statement, each once, in increasing order.
pub fn distinct_parent_categories(st: &Vec<StatementRow>) -> (keys: Vec<String>)
    ensures
        is_category_list(texts(keys@), st@),
        texts(keys@) == summary_categories(st@),
{
    let mut keys: Vec<String> = Vec::new();
    let n = st.len();
    for i in 0..n
        invariant
            n == st.len(),
            is_category_list(texts(keys@), st@.take(i as int)),
    {
        let ghost before = texts(keys@);
        insert_sorted_text(&mut keys, &st[i].parent_category);
        proof {
            let p = parent_categories(st@.take(i + 1));
            let q = parent_categories(st@.take(i as int));
            assert(p =~= q.push(st@[i as int].parent_category@));
            assert forall|k: Seq<char>| p.contains(k) implies texts(keys@).contains(k) by {
                if p.contains(k) {
                    let x = choose|x: int| 0 <= x < p.len() && p[x] == k;
                    if x < i {
                        assert(q[x] == k);
                    }
                }
            }
            assert forall|k: Seq<char>| texts(keys@).contains(k) implies p.contains(k) by {
                if texts(keys@).contains(k) {
                    if before.contains(k) {
                        let x = choose|x: int| 0 <= x < q.len() && q[x] == k;
                        assert(p[x] == k);
                    } else {
                        assert(p[i as int] == k);
                    }
                }
            }
        }
    }
    assert(st@.take(n as int) =~= st@);
    proof {
        lemma_summary_categories(st@);
        lemma_strictly_sorted_unique(texts(keys@), summary_categories(st@));
    }
    keys
}

/// Why a summary could not be computed.
#[derive(Clone, Copy, Debug, PartialEq, Eq, Structural)]
pub enum SummaryError {
    /// A total or a balance does not fit in an `i64`.
    AmountOverflow,
}

/// The totals of the three money columns over the lines of the category `key`.
fn category_totals(st: &Vec<StatementRow>, key: &String) -> (t: (i128, i128, i128))
    ensures
        t.0 == category_total(st@, key@, Flow::MoneyIn),
        t.1 == category_total(st@, key@, Flow::MoneyOut),
        t.2 == category_total(st@, key@, Flow::Fee),
{
    let mut ti: i128 = 0;
    let mut to: i128 = 0;
    let mut tf: i128 = 0;
    let n = st.len();
    for j in 0..n
        invariant
            n == st.len(),
            ti == category_total(st@.take(j as int), key@, Flow::MoneyIn),
            to == category_total(st@.take(j as int), key@, Flow::MoneyOut),
            tf == category_total(st@.take(j as int), key@, Flow::Fee),
            -(j as int) * 0x8000_0000_0000_0000 <= ti <= (j as int) * 0x8000_0000_0000_0000,
            -(j as int) * 0x8000_0000_0000_0000 <= to <= (j as int) * 0x8000_0000_0000_0000,
            -(j as int) * 0x8000_0000_0000_0000 <= tf <= (j as int) * 0x8000_0000_0000_0000,
    {
        assert(st@.take(j + 1).drop_last() =~= st@.take(j as int));
        assert(st@.take(j + 1).last() == st@[j as int]);
        let r = &st[j];
        if r.parent_category == *key {
            match r.money_in {
                Some(v) => {
                    ti = ti + v as i128;
                },
                None => {},
            }
            match r.money_out {
                Some(v) => {
                    to = to + v as i128;
                },
                None => {},
            }
            match r.fee {
                Some(v) => {
                    tf = tf + v as i128;
                },
                None => {},
            }
        }
    }
    assert(st@.take(n as int) =~= st@);
    (ti, to, tf)
}

/// The budget amounts that a left join pairs with the category `key`.
fn budget_amounts_for(budget: &Vec<BudgetRow>, key: &String) -> (bs: Vec<Option<i64>>)
    ensures
        bs@ == left_join(budget_matches(budget@, key@)),
{
    let mut bs: Vec<Option<i64>> = Vec::new();
    let n = budget.len();
    for j in 0..n
        invariant
            n == budget.len(),
            bs@ == budget_matches(budget@.take(j as int), key@),
    {
        assert(budget@.take(j + 1).drop_last() =~= budget@.take(j as int));
        assert(budget@.take(j + 1).last() == budget@[j as int]);
        match &budget[j].category {
            Some(c) => {
                if *c == *key {
                    bs.push(budget[j].budget_amount);
                }
            },
            None => {},
        }
    }
    assert(budget@.take(n as int) =~= budget@);
    if bs.len() == 0 {
        bs.push(None);
        assert(bs@ =~= seq![None]);
    }
    bs
}

/// The previous balances that a left join pairs with the category `key`.
fn previous_balances_for(previous: &Vec<SummaryRow>, key: &String) -> (ps: Vec<Option<i64>>)
    ensures
        ps@ == left_join(previous_matches(previous@, key@)),
{
    let mut ps: Vec<Option<i64>> = Vec::new();
    let n = previous.len();
    for j in 0..n
        invariant
            n == previous.len(),
            ps@ == previous_matches(previous@.take(j as int), key@),
    {
        assert(previous@.take(j + 1).drop_last() =~= previous@.take(j as int));
        assert(previous@.take(j + 1).last() == previous@[j as int]);
        match &previous[j].parent_category {
            Some(c) => {
                if *c == *key {
                    ps.push(previous[j].balance);
                }
            },
            None => {},
        }
    }
    assert(previous@.take(n as int) =~= previous@);
    if ps.len() == 0 {
        ps.push(None);
        assert(ps@ =~= seq![None]);
    }
    ps
}

/// Every balance of the category fits in an `i64`.
pub open spec fn balances_fit(
    money_in: int,
    money_out: int,
    fee: int,
    bs: Seq<Option<i64>>,
    ps: Seq<Option<i64>>,
) -> bool {
    forall|x: int, y: int|
        0 <= x < bs.len() && 0 <= y < ps.len() ==> (#[trigger] balance(
            money_in,
            money_out,
            fee,
            bs[x],
            ps[y],
        ) matches Some(v) ==> fits(v))
}

/// Appends the lines of one category; `false` when a balance does not fit.
fn append_category_lines(
    out: &mut Vec<SummaryRow>,
    key: &String,
    mi: i64,
    mo: i64,
    fe: i64,
    bs: &Vec<Option<i64>>,
    ps: &Vec<Option<i64>>,
) -> (ok: bool)
    ensures
        ok == balances_fit(mi as int, mo as int, fe as int, bs@, ps@),
        ok ==> summary_lines(final(out)@) == summary_lines(old(out)@) + joined_lines(
            key@,
            mi as int,
            mo as int,
            fe as int,
            bs@,
            ps@,
        ),
{
    let ghost base = summary_lines(out@);
    let nb = bs.len();
    let np = ps.len();
    for x in 0..nb
        invariant
            nb == bs.len(),
            np == ps.len(),
            summary_lines(out@) == base + joined_lines(
                key@,
                mi as int,
                mo as int,
                fe as int,
                bs@.take(x as int),
                ps@,
            ),
            forall|x1: int, y1: int|
                0 <= x1 < x && 0 <= y1 < ps@.len() ==> (#[trigger] balance(
                    mi as int,
                    mo as int,
                    fe as int,
                    bs@[x1],
                    ps@[y1],
                ) matches Some(v) ==> fits(v)),
    {
        let ghost mid = summary_lines(out@);
        let ghost line_of = |p: Option<i64>|
            summary_line(key@, mi as int, mo as int, fe as int, bs@[x as int], p);
        for y in 0..np
            invariant
                nb == bs.len(),
                np == ps.len(),
                x < nb,
                summary_lines(out@) == mid + ps@.take(y as int).map_values(line_of),
                line_of == (|p: Option<i64>|
                    summary_line(key@, mi as int, mo as int, fe as int, bs@[x as int], p)),
                forall|x1: int, y1: int|
                    0 <= x1 < x && 0 <= y1 < ps@.len() ==> (#[trigger] balance(
                        mi as int,
                        mo as int,
                        fe as int,
                        bs@[x1],
                        ps@[y1],
                    ) matches Some(v) ==> fits(v)),
                forall|y1: int|
                    0 <= y1 < y ==> (#[trigger] balance(
                        mi as int,
                        mo as int,
                        fe as int,
                        bs@[x as int],
                        ps@[y1],
                    ) matches Some(v) ==> fits(v)),
        {
            let bal: Option<i64> = match (bs[x], ps[y]) {
                (Some(b), Some(p)) => {
                    let v: i128 = mi as i128 + mo as i128 + fe as i128 - b as i128 + p as i128;
                    if v < i64::MIN as i128 || v > i64::MAX as i128 {
                        assert(!fits(v as int));
                        assert(balance(mi as int, mo as int, fe as int, bs@[x as int], ps@[y as int])
                            == Some(v as int));
                        return false;
                    }
                    Some(v as i64)
                },
                _ => None,
            };
            let ghost before = out@;
            let row = SummaryRow {
                    parent_category: Some(key.clone()),
                    money_in: Some(mi),
                    money_out: Some(mo),
                    fee: Some(fe),
                    budget_amount: bs[x],
                    previous_balance: ps[y],
                    balance: bal,
                };
            assert(row@.money_in == Some((mi as int) as i64));
            assert(row@.balance == line_of(ps@[y as int]).balance);
            assert(row@ == line_of(ps@[y as int]));
            out.push(row);
            proof {
                assert(summary_lines(out@) =~= summary_lines(before).push(row@));
                assert(ps@.take(y + 1) =~= ps@.take(y as int).push(ps@[y as int]));
                assert(ps@.take(y + 1).map_values(line_of) =~= ps@.take(y as int).map_values(
                    line_of,
                ).push(line_of(ps@[y as int])));
                assert(summary_lines(out@) =~= mid + ps@.take(y + 1).map_values(line_of));
            }
        }
        proof {
            assert(ps@.take(np as int) =~= ps@);
            assert(bs@.take(x + 1).drop_last() =~= bs@.take(x as int));
            assert(bs@.take(x + 1).last() == bs@[x as int]);
            assert(ps@.map_values(line_of) =~= ps@.map_values(
                |p: Option<i64>|
                    summary_line(key@, mi as int, mo as int, fe as int, bs@.take(x + 1).last(), p),
            ));
            assert(summary_lines(out@) =~= base + joined_lines(
                key@,
                mi as int,
                mo as int,
                fe as int,
                bs@.take(x + 1),
                ps@,
            ));
        }
    }
    assert(bs@.take(nb as int) =~= bs@);
    true
}

/// Summarises a period: groups the statement by parent category, sums the
/// money columns of each group, pairs each group with its budget lines and
/// with its lines of the previous summary (a left join on the parent
/// category, empty when there is no partner), computes the balance each
/// category carries forward, and lists the lines by increasing parent
/// category.
///
/// It fails exactly when a total or a balance does not fit in an `i64`.
pub fn summarize(
    st: &Vec<StatementRow>,
    budget: &Vec<BudgetRow>,
    previous: &Vec<SummaryRow>,
) -> (res: Result<Vec<SummaryRow>, SummaryError>)
    ensures
        res is Ok <==> summary_fits(st@, budget@, previous@),
        res matches Ok(rows) ==> summary_lines(rows@) == period_summary(st@, budget@, previous@),
        res matches Err(e) ==> e == SummaryError::AmountOverflow,
{
    let keys = distinct_parent_categories(st);
    let ghost ks = texts(keys@);
    let mut out: Vec<SummaryRow> = Vec::new();
    let nk = keys.len();
    for k in 0..nk
        invariant
            nk == keys.len(),
            ks == texts(keys@),
            is_category_list(ks, st@),
            ks == summary_categories(st@),
            summary_lines(out@) == lines_for(st@, budget@, previous@, ks.take(k as int)),
            forall|idx: int| 0 <= idx < k ==> #[trigger] category_fits(st@, budget@, previous@, ks[idx]),
    {
        let key = &keys[k];
        assert(ks[k as int] == key@);
        assert(parent_categories(st@).contains(key@)) by {
            assert(ks.contains(key@));
        }
        let (ti, to, tf) = category_totals(st, key);
        if ti < i64::MIN as i128 || ti > i64::MAX as i128 || to < i64::MIN as i128 || to
            > i64::MAX as i128 || tf < i64::MIN as i128 || tf > i64::MAX as i128 {
            assert(!category_fits(st@, budget@, previous@, key@));
            return Err(SummaryError::AmountOverflow);
        }
        let bs = budget_amounts_for(budget, key);
        let ps = previous_balances_for(previous, key);
        let ok = append_category_lines(&mut out, key, ti as i64, to as i64, tf as i64, &bs, &ps);
        if !ok {
            assert(!category_fits(st@, budget@, previous@, key@));
            return Err(SummaryError::AmountOverflow);
        }
        proof {
            assert(category_fits(st@, budget@, previous@, key@));
            assert(ks.take(k + 1).drop_last() =~= ks.take(k as int));
            assert(ks.take(k + 1).last() == key@);
        }
    }
    proof {
        assert(ks.take(nk as int) =~= ks);
        assert forall|key: Seq<char>| parent_categories(st@).contains(key) implies #[trigger] category_fits(
            st@,
            budget@,
            previous@,
            key,
        ) by {
            assert(ks.contains(key));
            let idx = choose|idx: int| 0 <= idx < ks.len() && ks[idx] == key;
            assert(category_fits(st@, budget@, previous@, ks[idx]));
        }
    }
    Ok(out)
}

/// Where a line of `joined_lines` comes from: a budget entry and a previous entry.
proof fn lemma_joined_line(
    key: Seq<char>,
    mi: int,
    mo: int,
    fe: int,
    bs: Seq<Option<i64>>,
    ps: Seq<Option<i64>>,
    i: int,
) -> (w: (int, int))
    requires
        0 <= i < joined_lines(key, mi, mo, fe, bs, ps).len(),
    ensures
        0 <= w.0 < bs.len(),
        0 <= w.1 < ps.len(),
        joined_lines(key, mi, mo, fe, bs, ps)[i] == summary_line(key, mi, mo, fe, bs[w.0], ps[w.1]),
    decreases bs.len(),
{
    let init = joined_lines(key, mi, mo, fe, bs.drop_last(), ps);
    if i < init.len() {
        lemma_joined_line(key, mi, mo, fe, bs.drop_last(), ps, i)
    } else {
        (bs.len() - 1, i - init.len())
    }
}

/// A category with at least one budget entry and one previous entry has lines.
proof fn lemma_joined_lines_len(
    key: Seq<char>,
    mi: int,
    mo: int,
    fe: int,
    bs: Seq<Option<i64>>,
    ps: Seq<Option<i64>>,
)
    requires
        bs.len() > 0,
    ensures
        joined_lines(key, mi, mo, fe, bs, ps).len() >= ps.len(),
{
}

/// Where a line of `lines_for` comes from: a category of `keys`, and a budget
/// entry and a previous entry of that category.
proof fn lemma_line_origin(
    st: Seq<StatementRow>,
    budget: Seq<BudgetRow>,
    previous: Seq<SummaryRow>,
    keys: Seq<Seq<char>>,
    i: int,
) -> (w: (int, int, int))
    requires
        0 <= i < lines_for(st, budget, previous, keys).len(),
    ensures
        0 <= w.0 < keys.len(),
        0 <= w.1 < left_join(budget_matches(budget, keys[w.0])).len(),
        0 <= w.2 < left_join(previous_matches(previous, keys[w.0])).len(),
        lines_for(st, budget, previous, keys)[i] == summary_line(
            keys[w.0],
            category_total(st, keys[w.0], Flow::MoneyIn),
            category_total(st, keys[w.0], Flow::MoneyOut),
            category_total(st, keys[w.0], Flow::Fee),
            left_join(budget_matches(budget, keys[w.0]))[w.1],
            left_join(previous_matches(previous, keys[w.0]))[w.2],
        ),
    decreases keys.len(),
{
    let init = lines_for(st, budget, previous, keys.drop_last());
    if i < init.len() {
        let w = lemma_line_origin(st, budget, previous, keys.drop_last(), i);
        assert(keys.drop_last()[w.0] == keys[w.0]);
        w
    } else {
        let k = keys.last();
        let v = lemma_joined_line(
            k,
            category_total(st, k, Flow::MoneyIn),
            category_total(st, k, Flow::MoneyOut),
            category_total(st, k, Flow::Fee),
            left_join(budget_matches(budget, k)),
            left_join(previous_matches(previous, k)),
            i - init.len(),
        );
        (keys.len() - 1, v.0, v.1)
    }
}

/// The lines of strictly sorted categories come in order of category.
proof fn lemma_lines_for_sorted(
    st: Seq<StatementRow>,
    budget: Seq<BudgetRow>,
    previous: Seq<SummaryRow>,
    keys: Seq<Seq<char>>,
)
    requires
        strictly_sorted(keys),
    ensures
        forall|i: int, j: int|
            0 <= i < j < lines_for(st, budget, previous, keys).len() ==> {
                let a = #[trigger] lines_for(st, budget, previous, keys)[i].parent_category;
                let b = #[trigger] lines_for(st, budget, previous, keys)[j].parent_category;
                a is Some && b is Some && (a->0 == b->0 || text_lt(a->0, b->0))
            },
    decreases keys.len(),
{
    if keys.len() > 0 {
        let init = keys.drop_last();
        let all = lines_for(st, budget, previous, keys);
        let head = lines_for(st, budget, previous, init);
        assert forall|i: int, j: int| 0 <= i < j < init.len() implies text_lt(
            #[trigger] init[i],
            #[trigger] init[j],
        ) by {
            assert(text_lt(keys[i], keys[j]));
        }
        lemma_lines_for_sorted(st, budget, previous, init);
        assert forall|i: int, j: int| 0 <= i < j < all.len() implies {
            let a = #[trigger] all[i].parent_category;
            let b = #[trigger] all[j].parent_category;
            a is Some && b is Some && (a->0 == b->0 || text_lt(a->0, b->0))
        } by {
            let wi = lemma_line_origin(st, budget, previous, keys, i);
            let wj = lemma_line_origin(st, budget, previous, keys, j);
            if j < head.len() {
                assert(all[i] == head[i]);
                assert(all[j] == head[j]);
            } else if i >= head.len() {
                let vi = lemma_line_origin(st, budget, previous, keys, i);
                let wi2 = lemma_joined_line(
                    keys.last(),
                    category_total(st, keys.last(), Flow::MoneyIn),
                    category_total(st, keys.last(), Flow::MoneyOut),
                    category_total(st, keys.last(), Flow::Fee),
                    left_join(budget_matches(budget, keys.last())),
                    left_join(previous_matches(previous, keys.last())),
                    i - head.len(),
                );
                let wj2 = lemma_joined_line(
                    keys.last(),
                    category_total(st, keys.last(), Flow::MoneyIn),
                    category_total(st, keys.last(), Flow::MoneyOut),
                    category_total(st, keys.last(), Flow::Fee),
                    left_join(budget_matches(budget, keys.last())),
                    left_join(previous_matches(previous, keys.last())),
                    j - head.len(),
                );
            } else {
                let hi = lemma_line_origin(st, budget, previous, init, i);
                assert(all[i] == head[i]);
                let wj2 = lemma_joined_line(
                    keys.last(),
                    category_total(st, keys.last(), Flow::MoneyIn),
                    category_total(st, keys.last(), Flow::MoneyOut),
                    category_total(st, keys.last(), Flow::Fee),
                    left_join(budget_matches(budget, keys.last())),
                    left_join(previous_matches(previous, keys.last())),
                    j - head.len(),
                );
                assert(init[hi.0] == keys[hi.0]);
                assert(text_lt(keys[hi.0], keys[keys.len() - 1]));
            }
        }
    }
}

/// Every category of `keys` has a line among `lines_for(keys)`.
proof fn lemma_lines_for_cover(
    st: Seq<StatementRow>,
    budget: Seq<BudgetRow>,
    previous: Seq<SummaryRow>,
    keys: Seq<Seq<char>>,
    idx: int,
) -> (i: int)
    requires
        0 <= idx < keys.len(),
    ensures
        0 <= i < lines_for(st, budget, previous, keys).len(),
        lines_for(st, budget, previous, keys)[i].parent_category == Some(keys[idx]),
    decreases keys.len(),
{
    let init = keys.drop_last();
    let head = lines_for(st, budget, previous, init);
    if idx < keys.len() - 1 {
        let i = lemma_lines_for_cover(st, budget, previous, init, idx);
        assert(init[idx] == keys[idx]);
        i
    } else {
        let k = keys.last();
        lemma_joined_lines_len(
            k,
            category_total(st, k, Flow::MoneyIn),
            category_total(st, k, Flow::MoneyOut),
            category_total(st, k, Flow::Fee),
            left_join(budget_matches(budget, k)),
            left_join(previous_matches(previous, k)),
        );
        let w = lemma_joined_line(
            k,
            category_total(st, k, Flow::MoneyIn),
            category_total(st, k, Flow::MoneyOut),
            category_total(st, k, Flow::Fee),
            left_join(budget_matches(budget, k)),
            left_join(previous_matches(previous, k)),
            0,
        );
        head.len() as int
    }
}

/// The summary lists its lines by parent category, in increasing order;
/// every line names its parent category.
pub proof fn law_summary_sorted(
    st: Seq<StatementRow>,
    budget: Seq<BudgetRow>,
    previous: Seq<SummaryRow>,
)
    ensures
        forall|i: int, j: int|
            0 <= i < j < period_summary(st, budget, previous).len() ==> {
                let a = #[trigger] period_summary(st, budget, previous)[i].parent_category;
                let b = #[trigger] period_summary(st, budget, previous)[j].parent_category;
                a is Some && b is Some && (a->0 == b->0 || text_lt(a->0, b->0))
            },
{
    lemma_summary_categories(st);
    lemma_lines_for_sorted(st, budget, previous, summary_categories(st));
}

/// A category has lines in the summary exactly when some statement line
/// has it as its parent category.
pub proof fn law_summary_categories(
    st: Seq<StatementRow>,
    budget: Seq<BudgetRow>,
    previous: Seq<SummaryRow>,
    key: Seq<char>,
)
    ensures
        parent_categories(st).contains(key) <==> exists|i: int|
            0 <= i < period_summary(st, budget, previous).len()
                && #[trigger] period_summary(st, budget, previous)[i].parent_category == Some(key),
{
    lemma_summary_categories(st);
    let keys = summary_categories(st);
    let lines = period_summary(st, budget, previous);
    if parent_categories(st).contains(key) {
        assert(keys.contains(key));
        let idx = choose|idx: int| 0 <= idx < keys.len() && keys[idx] == key;
        let i = lemma_lines_for_cover(st, budget, previous, keys, idx);
        assert(lines[i].parent_category == Some(key));
    }
    if exists|i: int| 0 <= i < lines.len() && #[trigger] lines[i].parent_category == Some(key) {
        let i = choose|i: int| 0 <= i < lines.len() && #[trigger] lines[i].parent_category == Some(key);
        let w = lemma_line_origin(st, budget, previous, keys, i);
        assert(keys[w.0] == key);
        assert(keys.contains(key));
    }
}

/// When every amount fits, each line of the summary holds its category's
/// totals over the statement, a budget amount and a previous balance of that
/// category (each empty when the category has none), and the balance it
/// carries forward: money in, plus money out, plus fees, less the budget,
/// plus the previous balance; empty when the budget or the previous balance
/// is.
pub proof fn law_summary_line(
    st: Seq<StatementRow>,
    budget: Seq<BudgetRow>,
    previous: Seq<SummaryRow>,
    i: int,
)
    requires
        summary_fits(st, budget, previous),
        0 <= i < period_summary(st, budget, previous).len(),
    ensures
        ({
            let l = period_summary(st, budget, previous)[i];
            &&& l.parent_category matches Some(k) && {
                &&& parent_categories(st).contains(k)
                &&& l.money_in matches Some(v) && v == category_total(st, k, Flow::MoneyIn)
                &&& l.money_out matches Some(v) && v == category_total(st, k, Flow::MoneyOut)
                &&& l.fee matches Some(v) && v == category_total(st, k, Flow::Fee)
                &&& left_join(budget_matches(budget, k)).contains(l.budget_amount)
                &&& left_join(previous_matches(previous, k)).contains(l.previous_balance)
            }
            &&& match (l.budget_amount, l.previous_balance) {
                (Some(b), Some(p)) => l.balance matches Some(v) && v == l.money_in->0
                    + l.money_out->0 + l.fee->0 - b + p,
                _ => l.balance is None,
            }
        }),
{
    lemma_summary_categories(st);
    let keys = summary_categories(st);
    let w = lemma_line_origin(st, budget, previous, keys, i);
    let k = keys[w.0];
    assert(keys.contains(k));
    assert(category_fits(st, budget, previous, k));
    let bs = left_join(budget_matches(budget, k));
    let ps = left_join(previous_matches(previous, k));
    assert(bs[w.1] == bs[w.1]);
    let bal = balance(
        category_total(st, k, Flow::MoneyIn),
        category_total(st, k, Flow::MoneyOut),
        category_total(st, k, Flow::Fee),
        bs[w.1],
        ps[w.2],
    );
    assert(bal matches Some(v) ==> fits(v));
}

/// The previous summary made blank from a budget pairs each category with
/// one zero balance per budget line of that category.
proof fn lemma_blank_previous(budget: Seq<BudgetRow>, previous: Seq<SummaryRow>, key: Seq<char>)
    requires
        summary_lines(previous) == budget.map_values(|r: BudgetRow| blank_line(r)),
    ensures
        previous_matches(previous, key).len() == budget_matches(budget, key).len(),
        forall|y: int|
            0 <= y < previous_matches(previous, key).len() ==> #[trigger] previous_matches(
                previous,
                key,
            )[y] == Some(0i64),
    decreases budget.len(),
{
    assert(previous.len() == summary_lines(previous).len());
    if budget.len() > 0 {
        let bi = budget.drop_last();
        let pi = previous.drop_last();
        assert forall|x: int| 0 <= x < pi.len() implies #[trigger] summary_lines(pi)[x]
            == blank_line(bi[x]) by {
            assert(summary_lines(previous)[x] == previous[x]@);
            assert(summary_lines(previous)[x] == blank_line(budget[x]));
        }
        assert(summary_lines(pi) =~= bi.map_values(|r: BudgetRow| blank_line(r)));
        lemma_blank_previous(bi, pi, key);
        assert(summary_lines(previous)[previous.len() - 1] == previous.last()@);
        assert(previous.last()@ == blank_line(budget.last()));
    }
}

/// Starting from the blank summary of the budget, a category carries in a
/// zero balance when the budget has a line for it, and nothing otherwise.
pub proof fn law_blank_previous_balance(
    st: Seq<StatementRow>,
    budget: Seq<BudgetRow>,
    previous: Seq<SummaryRow>,
    i: int,
)
    requires
        summary_lines(previous) == budget.map_values(|r: BudgetRow| blank_line(r)),
        0 <= i < period_summary(st, budget, previous).len(),
    ensures
        period_summary(st, budget, previous)[i].parent_category matches Some(k)
            && period_summary(st, budget, previous)[i].previous_balance == (if budget_matches(
            budget,
            k,
        ).len() > 0 {
            Some(0i64)
        } else {
            None
        }),
{
    lemma_summary_categories(st);
    let keys = summary_categories(st);
    let w = lemma_line_origin(st, budget, previous, keys, i);
    let k = keys[w.0];
    lemma_blank_previous(budget, previous, k);
}

/// A previous summary with no line for `key` pairs nothing with it.
proof fn lemma_previous_matches_none(previous: Seq<SummaryRow>, key: Seq<char>)
    requires
        forall|j: int| 0 <= j < previous.len() ==> opt_text(#[trigger] previous[j].parent_category) != Some(key),
    ensures
        previous_matches(previous, key).len() == 0,
    decreases previous.len(),
{
    if previous.len() > 0 {
        let init = previous.drop_last();
        assert forall|j: int| 0 <= j < init.len() implies opt_text(#[trigger] init[j].parent_category) != Some(key) by {
            assert(init[j] == previous[j]);
        }
        lemma_previous_matches_none(init, key);
        assert(opt_text(previous[previous.len() - 1].parent_category) != Some(key));
    }
}

/// A previous summary with exactly one line for `key` pairs that line's
/// balance with it.
proof fn lemma_previous_matches_unique(previous: Seq<SummaryRow>, key: Seq<char>, j: int)
    requires
        0 <= j < previous.len(),
        opt_text(previous[j].parent_category) == Some(key),
        forall|j2: int|
            0 <= j2 < previous.len() && j2 != j ==> opt_text(#[trigger] previous[j2].parent_category) != Some(key),
    ensures
        previous_matches(previous, key) == seq![previous[j].balance],
    decreases previous.len(),
{
    let init = previous.drop_last();
    if j == previous.len() - 1 {
        assert forall|x: int| 0 <= x < init.len() implies opt_text(#[trigger] init[x].parent_category) != Some(key) by {
            assert(init[x] == previous[x]);
        }
        lemma_previous_matches_none(init, key);
        assert(previous_matches(init, key) =~= Seq::<Option<i64>>::empty());
        assert(previous_matches(previous, key) =~= seq![previous[j].balance]);
    } else {
        assert forall|j2: int| 0 <= j2 < init.len() && j2 != j implies opt_text(#[trigger] init[j2].parent_category) != Some(key) by {
            assert(init[j2] == previous[j2]);
        }
        assert(init[j] == previous[j]);
        lemma_previous_matches_unique(init, key, j);
        assert(opt_text(previous[previous.len() - 1].parent_category) != Some(key));
    }
}

/// The balance a category carries out of one period is the balance it
/// carries into the next: when the previous summary has exactly one line
/// for a category, every line of that category in the new summary starts
/// from that line's balance.
pub proof fn law_balance_carried_forward(
    st: Seq<StatementRow>,
    budget: Seq<BudgetRow>,
    previous: Seq<SummaryRow>,
    j: int,
    i: int,
)
    requires
        0 <= j < previous.len(),
        opt_text(previous[j].parent_category) is Some,
        forall|j2: int|
            0 <= j2 < previous.len() && j2 != j ==> opt_text(#[trigger] previous[j2].parent_category)
                != opt_text(previous[j].parent_category),
        0 <= i < period_summary(st, budget, previous).len(),
        period_summary(st, budget, previous)[i].parent_category == opt_text(
            previous[j].parent_category,
        ),
    ensures
        period_summary(st, budget, previous)[i].previous_balance == previous[j].balance,
{
    lemma_summary_categories(st);
    let keys = summary_categories(st);
    let w = lemma_line_origin(st, budget, previous, keys, i);
    let k = keys[w.0];
    lemma_previous_matches_unique(previous, k, j);
}

} // verus!

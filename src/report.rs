use vstd::prelude::*;
use crate::calendar::{MonthChoice, month_name_of};
use crate::ledger::Config;
use crate::model::{
    ProjectEntryView, TimeRecordView, abs, entries_view, lemma_magnitude_prefix,
    lemma_sum_within_magnitude, magnitude,
};

verus! {

broadcast use vstd::seq_lib::group_seq_properties;

pub open spec fn in_month(r: TimeRecordView, year: i32, month: u32) -> bool {
    r.date.year == year && r.date.month == month
}

/// The project entries of the records dated in `year`/`month`, in order.
pub open spec fn month_entries(rs: Seq<TimeRecordView>, year: i32, month: u32) -> Seq<ProjectEntryView>
    decreases rs.len(),
{
    if rs.len() == 0 {
        Seq::empty()
    } else {
        month_entries(rs.drop_last(), year, month) + if in_month(rs.last(), year, month) {
            rs.last().entries
        } else {
            Seq::empty()
        }
    }
}

/// Sum of the hours of the entries for the project `code`.
pub open spec fn code_total(es: Seq<ProjectEntryView>, code: Seq<char>) -> int
    decreases es.len(),
{
    if es.len() == 0 {
        0
    } else {
        code_total(es.drop_last(), code) + if es.last().project.code == code {
            es.last().hours as int
        } else {
            0
        }
    }
}

/// The project codes of `es`, each once, in order of first appearance.
pub open spec fn distinct_codes(es: Seq<ProjectEntryView>) -> Seq<Seq<char>>
    decreases es.len(),
{
    if es.len() == 0 {
        Seq::empty()
    } else {
        let d = distinct_codes(es.drop_last());
        if d.contains(es.last().project.code) {
            d
        } else {
            d.push(es.last().project.code)
        }
    }
}

/// The totals of a month are exactly the per-code sums of its entries, one
/// pair per code in order of first appearance.
pub open spec fn are_month_totals(r: Seq<(String, i64)>, es: Seq<ProjectEntryView>) -> bool {
    &&& r.len() == distinct_codes(es).len()
    &&& forall|i: int|
        0 <= i < r.len() ==> (#[trigger] r[i]).0@ == distinct_codes(es)[i] && r[i].1 == code_total(
            es,
            distinct_codes(es)[i],
        )
}

pub proof fn lemma_magnitude_concat(a: Seq<ProjectEntryView>, b: Seq<ProjectEntryView>)
    ensures
        magnitude(a + b) == magnitude(a) + magnitude(b),
    decreases b.len(),
{
    if b.len() > 0 {
        lemma_magnitude_concat(a, b.drop_last());
        assert((a + b).drop_last() =~= a + b.drop_last());
    } else {
        assert(a + b =~= a);
    }
}

proof fn lemma_code_total_within(es: Seq<ProjectEntryView>, code: Seq<char>)
    ensures
        abs(code_total(es, code)) <= magnitude(es),
    decreases es.len(),
{
    if es.len() > 0 {
        lemma_code_total_within(es.drop_last(), code);
    }
}

proof fn lemma_month_prefix(rs: Seq<TimeRecordView>, year: i32, month: u32, i: int)
    requires
        0 <= i <= rs.len(),
    ensures
        magnitude(month_entries(rs.subrange(0, i), year, month)) <= magnitude(
            month_entries(rs, year, month),
        ),
    decreases rs.len() - i,
{
    if i < rs.len() {
        lemma_month_prefix(rs, year, month, i + 1);
        let pre = rs.subrange(0, i + 1);
        assert(pre.drop_last() =~= rs.subrange(0, i));
        let tail = if in_month(pre.last(), year, month) {
            pre.last().entries
        } else {
            Seq::empty()
        };
        lemma_magnitude_concat(month_entries(rs.subrange(0, i), year, month), tail);
        lemma_sum_within_magnitude(tail);
    } else {
        assert(rs.subrange(0, i) =~= rs);
    }
}

proof fn lemma_distinct_codes_contains(es: Seq<ProjectEntryView>, c: Seq<char>)
    ensures
        distinct_codes(es).contains(c) <==> exists|k: int|
            0 <= k < es.len() && #[trigger] es[k].project.code == c,
        distinct_codes(es).no_duplicates(),
    decreases es.len(),
{
    if es.len() > 0 {
        let pre = es.drop_last();
        lemma_distinct_codes_contains(pre, c);
        lemma_distinct_codes_contains(pre, es.last().project.code);
        if distinct_codes(es).contains(c) {
            if distinct_codes(pre).contains(c) {
                let k = choose|k: int| 0 <= k < pre.len() && #[trigger] pre[k].project.code == c;
                assert(es[k].project.code == c);
            } else {
                assert(es[es.len() - 1].project.code == c);
            }
        }
        if exists|k: int| 0 <= k < es.len() && #[trigger] es[k].project.code == c {
            let k = choose|k: int| 0 <= k < es.len() && #[trigger] es[k].project.code == c;
            if k < es.len() - 1 {
                assert(pre[k].project.code == c);
            }
        }
    }
}

/// Position of `code` among the names of `r`.
fn position_of_code(r: &Vec<(String, i64)>, code: &String) -> (p: Option<usize>)
    ensures
        p is None ==> forall|i: int| 0 <= i < r@.len() ==> (#[trigger] r@[i]).0@ != code@,
        p matches Some(i) ==> i < r@.len() && r@[i as int].0@ == code@,
{
    let mut i: usize = 0;
    while i < r.len()
        invariant
            i <= r@.len(),
            forall|k: int| 0 <= k < i ==> (#[trigger] r@[k]).0@ != code@,
        decreases r.len() - i,
    {
        if r[i].0 == *code {
            return Some(i);
        }
        i += 1;
    }
    None
}

/// Hours booked per project code in the month `month` of `year`, one pair
/// per code in order of first appearance; codes without entries that month
/// are absent.
pub fn filter_time_record_totals(config: &Config, year: i32, month: u32) -> (r: Vec<(String, i64)>)
    requires
        magnitude(month_entries(config.records(), year, month)) <= i64::MAX,
    ensures
        are_month_totals(r@, month_entries(config.records(), year, month)),
{
    let ghost rs = config.records();
    let ghost all = month_entries(rs, year, month);
    let mut totals: Vec<(String, i64)> = Vec::new();
    let mut i: usize = 0;
    while i < config.time_records.len()
        invariant
            rs == config.records(),
            all == month_entries(rs, year, month),
            magnitude(all) <= i64::MAX,
            i <= rs.len(),
            are_month_totals(totals@, month_entries(rs.subrange(0, i as int), year, month)),
        decreases config.time_records.len() - i,
    {
        let record = &config.time_records[i];
        let ghost done = month_entries(rs.subrange(0, i as int), year, month);
        proof {
            assert(rs.subrange(0, i as int + 1).drop_last() =~= rs.subrange(0, i as int));
            lemma_month_prefix(rs, year, month, i as int + 1);
        }
        if record.date.year == year && record.date.month == month {
            let ghost es = rs[i as int].entries;
            proof {
                lemma_magnitude_concat(done, es);
                assert(month_entries(rs.subrange(0, i as int + 1), year, month) == done + es);
            }
            let mut j: usize = 0;
            while j < record.project_entries.len()
                invariant
                    i < rs.len(),
                    rs == config.records(),
                    es == rs[i as int].entries,
                    es == entries_view(record.project_entries@),
                    j <= es.len(),
                    magnitude(done) + magnitude(es) <= i64::MAX,
                    are_month_totals(totals@, done + es.subrange(0, j as int)),
                decreases record.project_entries.len() - j,
            {
                let entry = &record.project_entries[j];
                let ghost before = done + es.subrange(0, j as int);
                let ghost after = done + es.subrange(0, j as int + 1);
                proof {
                    assert(after =~= before.push(es[j as int]));
                    assert(after.drop_last() =~= before);
                    lemma_magnitude_prefix(es, j as int + 1);
                    lemma_magnitude_concat(done, es.subrange(0, j as int + 1));
                    lemma_code_total_within(after, entry.project_name.code@);
                    lemma_distinct_codes_contains(before, entry.project_name.code@);
                }
                let ghost old_totals = totals@;
                match position_of_code(&totals, &entry.project_name.code) {
                    Some(p) => {
                        proof {
                            assert(distinct_codes(before).contains(entry.project_name.code@)) by {
                                assert(distinct_codes(before)[p as int] == entry.project_name.code@);
                            }
                        }
                        let name = totals[p].0.clone();
                        let sum = totals[p].1 + entry.hours;
                        totals.set(p, (name, sum));
                        proof {
                            assert forall|k: int| 0 <= k < totals@.len() implies (#[trigger] totals@[k]).0@
                                == distinct_codes(after)[k] && totals@[k].1 == code_total(
                                after,
                                distinct_codes(after)[k],
                            ) by {
                                if k != p {
                                    assert(old_totals[k].0@ == distinct_codes(before)[k]);
                                    lemma_distinct_codes_contains(before, entry.project_name.code@);
                                    assert(distinct_codes(before)[k] != distinct_codes(before)[p as int]);
                                }
                            }
                        }
                    },
                    None => {
                        proof {
                            if distinct_codes(before).contains(entry.project_name.code@) {
                                let k = choose|k: int| 0 <= k < distinct_codes(before).len()
                                    && distinct_codes(before)[k] == entry.project_name.code@;
                                assert(old_totals[k].0@ == entry.project_name.code@);
                            }
                        }
                        totals.push((entry.project_name.code.clone(), entry.hours));
                        proof {
                            assert forall|k: int| 0 <= k < totals@.len() implies (#[trigger] totals@[k]).0@
                                == distinct_codes(after)[k] && totals@[k].1 == code_total(
                                after,
                                distinct_codes(after)[k],
                            ) by {
                                if k < old_totals.len() {
                                    assert(old_totals[k].0@ == distinct_codes(before)[k]);
                                    assert(distinct_codes(before)[k] != entry.project_name.code@) by {
                                        assert(distinct_codes(before).contains(distinct_codes(before)[k]));
                                    }
                                } else {
                                    assert(code_total(before, entry.project_name.code@) == 0) by {
                                        lemma_code_total_absent(before, entry.project_name.code@);
                                    }
                                }
                            }
                        }
                    },
                }
                j += 1;
            }
            proof {
                assert(es.subrange(0, j as int) =~= es);
            }
        } else {
            proof {
                assert(month_entries(rs.subrange(0, i as int + 1), year, month) =~= done);
            }
        }
        i += 1;
    }
    proof {
        assert(rs.subrange(0, i as int) =~= rs);
    }
    totals
}

proof fn lemma_code_total_absent(es: Seq<ProjectEntryView>, code: Seq<char>)
    requires
        !distinct_codes(es).contains(code),
    ensures
        code_total(es, code) == 0,
    decreases es.len(),
{
    if es.len() > 0 {
        let d = distinct_codes(es.drop_last());
        if d.contains(code) {
            let k = choose|k: int| 0 <= k < d.len() && d[k] == code;
            assert(distinct_codes(es)[k] == code);
        }
        lemma_code_total_absent(es.drop_last(), code);
    }
}

/// Whether the magnitudes of the hours booked in `year`/`month` sum to at
/// most `i64::MAX`, so that `filter_time_record_totals` can total them.
pub fn month_hours_fit(config: &Config, year: i32, month: u32) -> (r: bool)
    ensures
        r == (magnitude(month_entries(config.records(), year, month)) <= i64::MAX),
{
    let ghost rs = config.records();
    let mut mag: i128 = 0;
    let mut i: usize = 0;
    while i < config.time_records.len()
        invariant
            rs == config.records(),
            i <= rs.len(),
            mag == magnitude(month_entries(rs.subrange(0, i as int), year, month)),
            mag <= i64::MAX,
        decreases config.time_records.len() - i,
    {
        let record = &config.time_records[i];
        let ghost done = month_entries(rs.subrange(0, i as int), year, month);
        proof {
            assert(rs.subrange(0, i as int + 1).drop_last() =~= rs.subrange(0, i as int));
            lemma_month_prefix(rs, year, month, i as int + 1);
        }
        if record.date.year == year && record.date.month == month {
            let ghost es = rs[i as int].entries;
            proof {
                assert(month_entries(rs.subrange(0, i as int + 1), year, month) == done + es);
                lemma_magnitude_concat(done, es);
            }
            let mut j: usize = 0;
            while j < record.project_entries.len()
                invariant
                    i < rs.len(),
                    rs == config.records(),
                    es == rs[i as int].entries,
                    es == entries_view(record.project_entries@),
                    j <= es.len(),
                    mag == magnitude(done) + magnitude(es.subrange(0, j as int)),
                    mag <= i64::MAX,
                    magnitude(month_entries(rs.subrange(0, i as int + 1), year, month)) <= magnitude(
                        month_entries(rs, year, month),
                    ),
                    month_entries(rs.subrange(0, i as int + 1), year, month) == done + es,
                    magnitude(done + es) == magnitude(done) + magnitude(es),
                decreases record.project_entries.len() - j,
            {
                proof {
                    assert(es.subrange(0, j as int + 1).drop_last() =~= es.subrange(0, j as int));
                }
                let h = record.project_entries[j].hours;
                mag = mag + if h < 0 { -(h as i128) } else { h as i128 };
                j += 1;
                if mag > i64::MAX as i128 {
                    proof { lemma_magnitude_prefix(es, j as int); }
                    return false;
                }
            }
            proof {
                assert(es.subrange(0, j as int) =~= es);
            }
        } else {
            proof {
                assert(month_entries(rs.subrange(0, i as int + 1), year, month) =~= done);
            }
        }
        i += 1;
    }
    proof {
        assert(rs.subrange(0, i as int) =~= rs);
    }
    true
}

pub open spec fn has_year(rs: Seq<TimeRecordView>, year: i32) -> bool {
    exists|i: int| 0 <= i < rs.len() && #[trigger] rs[i].date.year == year
}

pub open spec fn has_month(rs: Seq<TimeRecordView>, year: i32, month: u32) -> bool {
    exists|i: int| 0 <= i < rs.len() && #[trigger] in_month(rs[i], year, month)
}

pub open spec fn descending_i32(s: Seq<i32>) -> bool {
    forall|a: int, b: int| 0 <= a < b < s.len() ==> s[a] > s[b]
}

pub open spec fn descending_u32(s: Seq<u32>) -> bool {
    forall|a: int, b: int| 0 <= a < b < s.len() ==> s[a] > s[b]
}

/// Puts `x` into the strictly descending `v` unless it is there already.
fn insert_descending_i32(v: &mut Vec<i32>, x: i32)
    requires
        descending_i32(old(v)@),
    ensures
        descending_i32(final(v)@),
        forall|y: i32| final(v)@.contains(y) <==> (old(v)@.contains(y) || y == x),
{
    let mut p: usize = 0;
    while p < v.len() && v[p] > x
        invariant
            p <= v@.len(),
            forall|k: int| 0 <= k < p ==> v@[k] > x,
        decreases v.len() - p,
    {
        p += 1;
    }
    if p < v.len() && v[p] == x {
        return;
    }
    let ghost before = v@;
    v.insert(p, x);
    assert forall|y: i32| v@.contains(y) <==> (before.contains(y) || y == x) by {
        if v@.contains(y) {
            let k = choose|k: int| 0 <= k < v@.len() && v@[k] == y;
            if k < p {
                assert(before[k] == y);
            } else if k > p {
                assert(before[k - 1] == y);
            }
        }
        if before.contains(y) {
            let k = choose|k: int| 0 <= k < before.len() && before[k] == y;
            if k < p {
                assert(v@[k] == y);
            } else {
                assert(v@[k + 1] == y);
            }
        }
        if y == x {
            assert(v@[p as int] == y);
        }
    }
}

/// Puts `x` into the strictly descending `v` unless it is there already.
fn insert_descending_u32(v: &mut Vec<u32>, x: u32)
    requires
        descending_u32(old(v)@),
    ensures
        descending_u32(final(v)@),
        forall|y: u32| final(v)@.contains(y) <==> (old(v)@.contains(y) || y == x),
{
    let mut p: usize = 0;
    while p < v.len() && v[p] > x
        invariant
            p <= v@.len(),
            forall|k: int| 0 <= k < p ==> v@[k] > x,
        decreases v.len() - p,
    {
        p += 1;
    }
    if p < v.len() && v[p] == x {
        return;
    }
    let ghost before = v@;
    v.insert(p, x);
    assert forall|y: u32| v@.contains(y) <==> (before.contains(y) || y == x) by {
        if v@.contains(y) {
            let k = choose|k: int| 0 <= k < v@.len() && v@[k] == y;
            if k < p {
                assert(before[k] == y);
            } else if k > p {
                assert(before[k - 1] == y);
            }
        }
        if before.contains(y) {
            let k = choose|k: int| 0 <= k < before.len() && before[k] == y;
            if k < p {
                assert(v@[k] == y);
            } else {
                assert(v@[k + 1] == y);
            }
        }
        if y == x {
            assert(v@[p as int] == y);
        }
    }
}

/// The years of the stored records, each once, latest first.
pub fn distinct_years(config: &Config) -> (r: Vec<i32>)
    ensures
        descending_i32(r@),
        forall|y: i32| r@.contains(y) <==> has_year(config.records(), y),
{
    let ghost rs = config.records();
    let mut years: Vec<i32> = Vec::new();
    let mut i: usize = 0;
    while i < config.time_records.len()
        invariant
            rs == config.records(),
            i <= rs.len(),
            descending_i32(years@),
            forall|y: i32| years@.contains(y) <==> has_year(rs.subrange(0, i as int), y),
        decreases config.time_records.len() - i,
    {
        let y = config.time_records[i].date.year;
        insert_descending_i32(&mut years, y);
        i += 1;
        assert forall|x: i32| years@.contains(x) <==> has_year(rs.subrange(0, i as int), x) by {
            let pre = rs.subrange(0, i - 1);
            let cur = rs.subrange(0, i as int);
            if has_year(pre, x) {
                let k = choose|k: int| 0 <= k < pre.len() && #[trigger] pre[k].date.year == x;
                assert(cur[k].date.year == x);
            }
            if has_year(cur, x) {
                let k = choose|k: int| 0 <= k < cur.len() && #[trigger] cur[k].date.year == x;
                if k < i - 1 {
                    assert(pre[k].date.year == x);
                }
            }
            if x == y {
                assert(cur[i - 1].date.year == x);
            }
        }
    }
    assert(rs.subrange(0, i as int) =~= rs);
    years
}

/// The months of `year` in which records are stored, each once, latest first.
pub fn distinct_months_in_year(config: &Config, year: i32) -> (r: Vec<u32>)
    ensures
        descending_u32(r@),
        forall|m: u32| r@.contains(m) <==> has_month(config.records(), year, m),
{
    let ghost rs = config.records();
    let mut months: Vec<u32> = Vec::new();
    let mut i: usize = 0;
    while i < config.time_records.len()
        invariant
            rs == config.records(),
            i <= rs.len(),
            descending_u32(months@),
            forall|m: u32| months@.contains(m) <==> has_month(rs.subrange(0, i as int), year, m),
        decreases config.time_records.len() - i,
    {
        let d = config.time_records[i].date;
        let ghost before = months@;
        if d.year == year {
            insert_descending_u32(&mut months, d.month);
        }
        i += 1;
        assert forall|x: u32| months@.contains(x) <==> has_month(rs.subrange(0, i as int), year, x) by {
            let pre = rs.subrange(0, i - 1);
            let cur = rs.subrange(0, i as int);
            if has_month(pre, year, x) {
                let k = choose|k: int| 0 <= k < pre.len() && #[trigger] in_month(pre[k], year, x);
                assert(in_month(cur[k], year, x));
            }
            if has_month(cur, year, x) {
                let k = choose|k: int| 0 <= k < cur.len() && #[trigger] in_month(cur[k], year, x);
                if k < i - 1 {
                    assert(in_month(pre[k], year, x));
                }
            }
            if d.year == year && x == d.month {
                assert(in_month(cur[i - 1], year, x));
            }
        }
    }
    assert(rs.subrange(0, i as int) =~= rs);
    months
}

/// The month numbers of `s` that name a month, in order.
pub open spec fn named_months(s: Seq<u32>) -> Seq<u32> {
    s.filter(names_a_month())
}

pub open spec fn names_a_month() -> spec_fn(u32) -> bool {
    |m: u32| 1 <= m <= 12
}

proof fn lemma_named_months(s: Seq<u32>)
    requires
        descending_u32(s),
    ensures
        descending_u32(named_months(s)),
        forall|m: u32| named_months(s).contains(m) <==> (s.contains(m) && 1 <= m <= 12),
    decreases s.len(),
{
    if s.len() == 0 {
        assert(named_months(s) =~= Seq::<u32>::empty());
    } else {
        let pre = s.drop_last();
        let x = s.last();
        assert(pre.push(x) =~= s);
        lemma_named_months(pre);
        pre.lemma_filter_push(x, names_a_month());
        let f = named_months(pre);
        assert forall|m: u32| named_months(s).contains(m) <==> (s.contains(m) && 1 <= m <= 12) by {
            if s.contains(m) && m != x {
                let k = choose|k: int| 0 <= k < s.len() && s[k] == m;
                assert(pre[k] == m);
            }
            if pre.contains(m) {
                let k = choose|k: int| 0 <= k < pre.len() && pre[k] == m;
                assert(s[k] == m);
            }
            if m == x {
                assert(s[s.len() - 1] == m);
            }
        }
        if 1 <= x <= 12 {
            assert forall|a: int, b: int| 0 <= a < b < named_months(s).len() implies named_months(s)[a]
                > named_months(s)[b] by {
                if b == f.len() {
                    assert(f.contains(f[a]));
                    assert(pre.contains(f[a]));
                    let k = choose|k: int| 0 <= k < pre.len() && pre[k] == f[a];
                    assert(s[k] == f[a]);
                }
            }
        }
    }
}

/// The months of `year` in which records are stored, latest first, each with
/// its name; a month number outside 1 to 12 is left out.
pub fn month_choices(config: &Config, year: i32) -> (r: Vec<MonthChoice>)
    ensures
        forall|a: int, b: int|
            0 <= a < b < r@.len() ==> r@[a].month_number > r@[b].month_number,
        forall|m: u32|
            (exists|k: int| 0 <= k < r@.len() && #[trigger] r@[k].month_number == m) <==> (1 <= m
                <= 12 && has_month(config.records(), year, m)),
        forall|k: int|
            0 <= k < r@.len() ==> Some((#[trigger] r@[k]).month_name@) == month_name_of(
                r@[k].month_number,
            ),
{
    let months = distinct_months_in_year(config, year);
    let mut choices: Vec<MonthChoice> = Vec::new();
    let mut i: usize = 0;
    while i < months.len()
        invariant
            i <= months@.len(),
            choices@.map_values(|c: MonthChoice| c.month_number) == named_months(
                months@.subrange(0, i as int),
            ),
            forall|k: int|
                0 <= k < choices@.len() ==> Some((#[trigger] choices@[k]).month_name@)
                    == month_name_of(choices@[k].month_number),
        decreases months.len() - i,
    {
        proof {
            let pre = months@.subrange(0, i as int);
            assert(months@.subrange(0, i + 1) =~= pre.push(months@[i as int]));
            pre.lemma_filter_push(months@[i as int], names_a_month());
        }
        let ghost before = choices@;
        match MonthChoice::new(months[i]) {
            Some(c) => {
                choices.push(c);
                assert(choices@.map_values(|c: MonthChoice| c.month_number) =~= before.map_values(
                    |c: MonthChoice| c.month_number,
                ).push(months@[i as int]));
            },
            None => {},
        }
        i += 1;
    }
    proof {
        assert(months@.subrange(0, i as int) =~= months@);
        lemma_named_months(months@);
        let nums = choices@.map_values(|c: MonthChoice| c.month_number);
        assert(nums == named_months(months@));
        assert forall|m: u32|
            (exists|k: int| 0 <= k < choices@.len() && #[trigger] choices@[k].month_number == m) <==> (1
                <= m <= 12 && has_month(config.records(), year, m)) by {
            if exists|k: int| 0 <= k < choices@.len() && #[trigger] choices@[k].month_number == m {
                let k = choose|k: int| 0 <= k < choices@.len() && #[trigger] choices@[k].month_number == m;
                assert(nums[k] == m);
                assert(nums.contains(m));
                assert(months@.contains(m));
            }
            if 1 <= m <= 12 && has_month(config.records(), year, m) {
                assert(months@.contains(m));
                assert(nums.contains(m));
                let k = choose|k: int| 0 <= k < nums.len() && nums[k] == m;
                assert(choices@[k].month_number == m);
            }
        }
        assert forall|a: int, b: int| 0 <= a < b < choices@.len() implies choices@[a].month_number
            > choices@[b].month_number by {
            assert(nums[a] > nums[b]);
        }
    }
    choices
}

} // verus!

//! Emotions per day, for the trends on the dashboard.

use crate::db::search::distinct;
use crate::text::{join, joined, same_text, views};
use vstd::prelude::*;

verus! {

/// The entries of one day.
#[derive(Debug, Clone)]
pub struct DayEntries {
    pub date: String,
    pub entry_ids: Vec<String>,
}

/// The dates of `entries`, each given as an id and a date.
pub open spec fn entry_dates(entries: Seq<(String, String)>) -> Seq<Seq<char>> {
    Seq::new(entries.len(), |i: int| entries[i].1@)
}

/// The ids of the entries of `entries` that are dated `date`, in order.
pub open spec fn ids_on(entries: Seq<(String, String)>, date: Seq<char>) -> Seq<Seq<char>>
    decreases entries.len(),
{
    if entries.len() == 0 {
        Seq::empty()
    } else if entries.last().1@ == date {
        ids_on(entries.drop_last(), date).push(entries.last().0@)
    } else {
        ids_on(entries.drop_last(), date)
    }
}

/// The days of `entries`, each once in the order of first appearance, with
/// the ids of their entries.
pub open spec fn grouped(entries: Seq<(String, String)>) -> Seq<(Seq<char>, Seq<Seq<char>>)> {
    let dates = distinct(entry_dates(entries));
    Seq::new(dates.len(), |i: int| (dates[i], ids_on(entries, dates[i])))
}

/// Date and ids of each day of `days`.
pub open spec fn day_views(days: Seq<DayEntries>) -> Seq<(Seq<char>, Seq<Seq<char>>)> {
    Seq::new(days.len(), |i: int| (days[i].date@, views(days[i].entry_ids@)))
}

/// `count` question marks, separated by commas.
pub open spec fn placeholder_list(count: nat) -> Seq<char> {
    joined(Seq::new(count, |i: int| "?"@), ","@)
}

fn knows_date(days: &Vec<DayEntries>, date: &str) -> (yes: bool)
    ensures
        yes == Seq::new(days.len() as nat, |i: int| days[i].date@).contains(date@),
{
    let ghost dates = Seq::new(days.len() as nat, |i: int| days[i].date@);
    let mut i: usize = 0;
    while i < days.len()
        invariant
            i <= days.len(),
            dates == Seq::new(days.len() as nat, |i: int| days[i].date@),
            forall|k: int| 0 <= k < i ==> #[trigger] dates[k] != date@,
        decreases days.len() - i,
    {
        if same_text(days[i].date.as_str(), date) {
            assert(dates[i as int] == date@);
            return true;
        }
        i += 1;
    }
    false
}

fn ids_dated(entries: &Vec<(String, String)>, date: &str) -> (ids: Vec<String>)
    ensures
        views(ids@) == ids_on(entries@, date@),
{
    let mut ids: Vec<String> = Vec::new();
    let mut i: usize = 0;
    assert(entries@.take(0) =~= Seq::empty());
    while i < entries.len()
        invariant
            i <= entries.len(),
            views(ids@) == ids_on(entries@.take(i as int), date@),
        decreases entries.len() - i,
    {
        assert(entries@.take(i + 1).drop_last() =~= entries@.take(i as int));
        if same_text(entries[i].1.as_str(), date) {
            let ghost before = ids@;
            ids.push(entries[i].0.clone());
            assert(views(ids@) =~= views(before).push(entries@[i as int].0@));
        }
        i += 1;
    }
    assert(entries@.take(entries.len() as int) =~= entries@);
    ids
}

/// Group entries by their date. `entries` gives an id and a date for each
/// entry; the days come out in the order in which they first appear, each
/// with the ids of its entries in their order.
pub fn group_by_date(entries: &Vec<(String, String)>) -> (days: Vec<DayEntries>)
    ensures
        day_views(days@) == grouped(entries@),
{
    let ghost dates = entry_dates(entries@);
    let mut days: Vec<DayEntries> = Vec::new();
    let mut i: usize = 0;
    assert(dates.take(0) =~= Seq::empty());
    while i < entries.len()
        invariant
            i <= entries.len(),
            dates == entry_dates(entries@),
            Seq::new(days.len() as nat, |k: int| days[k].date@) == distinct(dates.take(i as int)),
            forall|k: int|
                0 <= k < days.len() ==> views((#[trigger] days[k]).entry_ids@) == ids_on(
                    entries@,
                    days[k].date@,
                ),
        decreases entries.len() - i,
    {
        let ghost upto = dates.take(i + 1);
        assert(upto.drop_last() =~= dates.take(i as int));
        assert(upto.last() == entries@[i as int].1@);
        if !knows_date(&days, entries[i].1.as_str()) {
            let ghost before = days@;
            let entry_ids = ids_dated(entries, entries[i].1.as_str());
            days.push(DayEntries { date: entries[i].1.clone(), entry_ids });
            assert(Seq::new(days.len() as nat, |k: int| days[k].date@) =~= Seq::new(
                before.len(),
                |k: int| before[k].date@,
            ).push(upto.last()));
            assert forall|k: int| 0 <= k < days.len() implies views(
                (#[trigger] days[k]).entry_ids@,
            ) == ids_on(entries@, days[k].date@) by {
                if k < before.len() {
                    assert(days[k] == before[k]);
                }
            }
        }
        i += 1;
    }
    assert(dates.take(entries.len() as int) =~= dates);
    assert(day_views(days@) =~= grouped(entries@)) by {
        let wanted = distinct(dates);
        let have = Seq::new(days.len() as nat, |k: int| days[k].date@);
        assert forall|k: int| 0 <= k < days.len() implies day_views(days@)[k] == grouped(
            entries@,
        )[k] by {
            assert(have[k] == wanted[k]);
        }
    }
    days
}

/// The placeholders of a query over `count` ids: that many question marks,
/// separated by commas.
pub fn placeholders(count: usize) -> (text: String)
    ensures
        text@ == placeholder_list(count as nat),
{
    let mut marks: Vec<String> = Vec::new();
    let mut i: usize = 0;
    while i < count
        invariant
            i <= count,
            marks.len() == i,
            forall|k: int| 0 <= k < i ==> #[trigger] marks@[k]@ == "?"@,
        decreases count - i,
    {
        marks.push(String::from_str("?"));
        i += 1;
    }
    assert(views(marks@) =~= Seq::new(count as nat, |i: int| "?"@));
    join(&marks, ",")
}

} // verus!

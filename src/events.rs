//! Named occasions bound to a month and a day.
use vstd::prelude::*;

verus! {

/// An occasion that falls on `month`/`day` of every year.
#[derive(Debug, Clone)]
pub struct Event {
    pub month: u8,
    pub day: u8,
    pub name: String,
}

/// The names of the events of `evs` that fall on `m`/`d`, in order.
pub open spec fn occasion_names(evs: Seq<Event>, m: u8, d: u8) -> Seq<Seq<char>>
    decreases evs.len(),
{
    if evs.len() == 0 {
        Seq::empty()
    } else {
        let last = evs.last();
        let rest = occasion_names(evs.drop_last(), m, d);
        if last.month == m && last.day == d {
            rest.push(last.name@)
        } else {
            rest
        }
    }
}

/// The names of the events of `dataset` that fall on `m`/`d`, in dataset
/// order; empty when none does.
pub fn events_on(dataset: &Vec<Event>, m: u8, d: u8) -> (r: Vec<String>)
    ensures
        r@.map_values(|s: String| s@) == occasion_names(dataset@, m, d),
{
    let mut names: Vec<String> = Vec::new();
    let mut i: usize = 0;
    while i < dataset.len()
        invariant
            i <= dataset@.len(),
            names@.map_values(|s: String| s@) == occasion_names(dataset@.subrange(0, i as int), m, d),
        decreases dataset@.len() - i,
    {
        let e = &dataset[i];
        proof {
            assert(dataset@.subrange(0, i + 1).drop_last() == dataset@.subrange(0, i as int));
        }
        if e.month == m && e.day == d {
            names.push(e.name.clone());
            assert(names@.map_values(|s: String| s@) =~= occasion_names(dataset@.subrange(0, i as int), m, d).push(e.name@));
        }
        i = i + 1;
    }
    assert(dataset@.subrange(0, dataset@.len() as int) == dataset@);
    names
}

} // verus!

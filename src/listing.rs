//! Pages and owner filters over an ascending scan of the stored records.
use vstd::prelude::*;
use crate::content::{Content, ContentView};
use crate::order::{key_lt, lex_lt};

verus! {

/// The page size when a listing names none.
pub const DEFAULT_LIMIT: u32 = 30;

/// A scan as the logic sees it: identifier and record, in scan order.
pub open spec fn entries_view(v: Seq<(String, Content)>) -> Seq<(Seq<char>, ContentView)> {
    v.map_values(|e: (String, Content)| (e.0@, e.1@))
}

pub open spec fn contents_view(v: Seq<Content>) -> Seq<ContentView> {
    v.map_values(|c: Content| c@)
}

pub open spec fn start_view(start_after: Option<String>) -> Option<Seq<char>> {
    match start_after {
        Some(s) => Some(s@),
        None => None,
    }
}

/// `key` lies past the exclusive lower bound `start`, if there is one.
pub open spec fn is_after(key: Seq<char>, start: Option<Seq<char>>) -> bool {
    match start {
        Some(s) => lex_lt(s, key),
        None => true,
    }
}

/// The records whose identifier lies past `start`, in scan order.
pub open spec fn contents_after(entries: Seq<(Seq<char>, ContentView)>, start: Option<Seq<char>>) -> Seq<
    ContentView,
>
    decreases entries.len(),
{
    if entries.len() == 0 {
        Seq::empty()
    } else {
        let rest = contents_after(entries.drop_last(), start);
        if is_after(entries.last().0, start) {
            rest.push(entries.last().1)
        } else {
            rest
        }
    }
}

/// The records owned by `owner`, in scan order.
pub open spec fn owned_by(entries: Seq<(Seq<char>, ContentView)>, owner: Seq<char>) -> Seq<ContentView>
    decreases entries.len(),
{
    if entries.len() == 0 {
        Seq::empty()
    } else {
        let rest = owned_by(entries.drop_last(), owner);
        if entries.last().1.owner == owner {
            rest.push(entries.last().1)
        } else {
            rest
        }
    }
}

/// The page size that `limit` asks for.
pub open spec fn page_size(limit: Option<u32>) -> nat {
    match limit {
        Some(l) => l as nat,
        None => DEFAULT_LIMIT as nat,
    }
}

/// The first `n` items of `s`, or all of them when there are fewer.
pub open spec fn first_n<A>(s: Seq<A>, n: nat) -> Seq<A> {
    if s.len() <= n {
        s
    } else {
        s.take(n as int)
    }
}

/// One page of a scan: the records past `start_after`, at most `limit` of them (30 when
/// no limit is given), in scan order.
pub fn select_page(entries: &Vec<(String, Content)>, start_after: &Option<String>, limit: Option<u32>) -> (r: Vec<Content>)
    ensures
        contents_view(r@) == first_n(
            contents_after(entries_view(entries@), start_view(*start_after)),
            page_size(limit),
        ),
{
    let size: usize = match limit {
        Some(l) => l as usize,
        None => DEFAULT_LIMIT as usize,
    };
    let ghost ev = entries_view(entries@);
    let ghost start = start_view(*start_after);
    let mut out: Vec<Content> = Vec::new();
    let mut i: usize = 0;
    assert(ev.take(0) =~= Seq::<(Seq<char>, ContentView)>::empty());
    while i < entries.len()
        invariant
            i <= entries.len(),
            ev == entries_view(entries@),
            start == start_view(*start_after),
            size == page_size(limit),
            contents_view(out@) =~= first_n(contents_after(ev.take(i as int), start), size as nat),
        decreases entries.len() - i,
    {
        let keep = match start_after {
            Some(s) => key_lt(s, &entries[i].0),
            None => true,
        };
        let ghost prev = contents_after(ev.take(i as int), start);
        assert(ev.take(i + 1).drop_last() =~= ev.take(i as int));
        assert(ev.take(i + 1).last() == ev[i as int]);
        if keep && out.len() < size {
            assert(contents_view(out@).len() == out@.len());
            assert(contents_view(out@) == prev);
            let c = entries[i].1.copy();
            assert(c@ == ev[i as int].1);
            let ghost before = out@;
            out.push(c);
            assert(out@ == before.push(c));
            assert(contents_view(out@) =~= prev.push(ev[i as int].1));
        } else if keep {
            assert(prev.push(ev[i as int].1).take(size as int) =~= prev.take(size as int));
        }
        i = i + 1;
    }
    assert(ev.take(i as int) =~= ev);
    out
}

/// Every record of a scan whose owner is `owner`, in scan order.
pub fn select_owned(entries: &Vec<(String, Content)>, owner: &String) -> (r: Vec<Content>)
    ensures
        contents_view(r@) == owned_by(entries_view(entries@), owner@),
{
    let ghost ev = entries_view(entries@);
    let mut out: Vec<Content> = Vec::new();
    let mut i: usize = 0;
    assert(ev.take(0) =~= Seq::<(Seq<char>, ContentView)>::empty());
    while i < entries.len()
        invariant
            i <= entries.len(),
            ev == entries_view(entries@),
            contents_view(out@) =~= owned_by(ev.take(i as int), owner@),
        decreases entries.len() - i,
    {
        let ghost prev = owned_by(ev.take(i as int), owner@);
        assert(ev.take(i + 1).drop_last() =~= ev.take(i as int));
        assert(ev.take(i + 1).last() == ev[i as int]);
        if entries[i].1.owner == *owner {
            let c = entries[i].1.copy();
            out.push(c);
            assert(contents_view(out@) =~= prev.push(ev[i as int].1));
        }
        i = i + 1;
    }
    assert(ev.take(i as int) =~= ev);
    out
}

} // verus!

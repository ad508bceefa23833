//! Properties of the registry that relate several calls or hold of every state.
use vstd::prelude::*;
use crate::content::{fresh_content, has_translation, with_translation, ContentView, ContractError, TranslationView};
use crate::ident::{decimal_of, lemma_decimal_injective};
use crate::listing::{contents_after, first_n, is_after, owned_by, page_size};
use crate::order::{lemma_lex_transitive, lex_lt};
use crate::registry::{registered, sorted_keys, stored_as, translated, RegistryView};

verus! {

/// Registering `n` times from a fresh registry hands out "1", "2", ..., "n" in that
/// order, whoever registers, and no identifier twice.
pub proof fn law_identifiers_count_up(
    states: Seq<RegistryView>,
    ids: Seq<Seq<char>>,
    records: Seq<ContentView>,
)
    requires
        states.len() == ids.len() + 1,
        records.len() == ids.len(),
        states[0].count == 0,
        forall|k: int|
            0 <= k < ids.len() ==> registered(#[trigger] states[k], states[k + 1], ids[k], records[k]),
    ensures
        forall|k: int| 0 <= k < ids.len() ==> #[trigger] ids[k] == decimal_of((k + 1) as nat),
        forall|i: int, j: int|
            0 <= i < ids.len() && 0 <= j < ids.len() && i != j ==> #[trigger] ids[i] != #[trigger] ids[j],
{
    assert forall|k: int| 0 <= k < states.len() implies #[trigger] states[k].count == k by {
        lemma_count_after(states, ids, records, k);
    }
    assert forall|k: int| 0 <= k < ids.len() implies #[trigger] ids[k] == decimal_of((k + 1) as nat) by {
        assert(registered(states[k], states[k + 1], ids[k], records[k]));
    }
    assert forall|i: int, j: int|
        0 <= i < ids.len() && 0 <= j < ids.len() && i != j implies #[trigger] ids[i] != #[trigger] ids[j] by {
        assert(ids[i] == decimal_of((i + 1) as nat));
        assert(ids[j] == decimal_of((j + 1) as nat));
        if ids[i] == ids[j] {
            lemma_decimal_injective((i + 1) as nat, (j + 1) as nat);
        }
    }
}

proof fn lemma_count_after(
    states: Seq<RegistryView>,
    ids: Seq<Seq<char>>,
    records: Seq<ContentView>,
    k: int,
)
    requires
        states.len() == ids.len() + 1,
        records.len() == ids.len(),
        states[0].count == 0,
        forall|k: int|
            0 <= k < ids.len() ==> registered(#[trigger] states[k], states[k + 1], ids[k], records[k]),
        0 <= k < states.len(),
    ensures
        states[k].count == k,
    decreases k,
{
    if k > 0 {
        lemma_count_after(states, ids, records, k - 1);
        assert(registered(states[k - 1], states[k], ids[k - 1], records[k - 1]));
    }
}

/// A record just registered is stored under its identifier with no translations and
/// the registration time as its creation time.
pub proof fn law_fresh_record(
    old: RegistryView,
    new: RegistryView,
    id: Seq<char>,
    owner: Seq<char>,
    title: Seq<char>,
    description: Seq<char>,
    content_type: Seq<char>,
    content_hash: Seq<char>,
    target_languages: Seq<Seq<char>>,
    now: u64,
)
    requires
        registered(
            old,
            new,
            id,
            fresh_content(owner, title, description, content_type, content_hash, target_languages, now),
        ),
    ensures
        exists|d: ContentView|
            #![trigger stored_as(new.entries, id, d)]
            stored_as(new.entries, id, d) && d.translations.len() == 0 && d.created_at == now,
{
    let c = fresh_content(owner, title, description, content_type, content_hash, target_languages, now);
    let p = choose|p: int| 0 <= p <= old.entries.len() && new.entries == old.entries.insert(p, (id, c));
    assert(new.entries[p] == (id, c));
    assert(new.entries[p].0 == id && new.entries[p].1 == c);
    assert(stored_as(new.entries, id, c));
}

/// A translation into a language that the record does not target is refused with
/// `InvalidLanguage`, and nothing changes.
pub proof fn law_untargeted_language_refused(
    old: RegistryView,
    new: RegistryView,
    id: Seq<char>,
    c: ContentView,
    language: Seq<char>,
    content_hash: Seq<char>,
    translator: Seq<char>,
    now: u64,
    r: Result<(), ContractError>,
)
    requires
        translated(old, new, id, language, content_hash, translator, now, r),
        stored_as(old.entries, id, c),
        !c.target_languages.contains(language),
    ensures
        r == Err::<(), ContractError>(ContractError::InvalidLanguage),
        new == old,
{
    let i = choose|i: int| 0 <= i < old.entries.len() && #[trigger] old.entries[i].0 == id && old.entries[i].1 == c;
    assert(old.entries[i].0 == id);
}

/// A second translation into a language is refused with `DuplicateTranslation`, and
/// nothing changes.
pub proof fn law_second_translation_refused(
    old: RegistryView,
    new: RegistryView,
    id: Seq<char>,
    c: ContentView,
    language: Seq<char>,
    content_hash: Seq<char>,
    translator: Seq<char>,
    now: u64,
    r: Result<(), ContractError>,
)
    requires
        translated(old, new, id, language, content_hash, translator, now, r),
        stored_as(old.entries, id, c),
        c.target_languages.contains(language),
        has_translation(c, language),
    ensures
        r == Err::<(), ContractError>(ContractError::DuplicateTranslation),
        new == old,
{
    let i = choose|i: int| 0 <= i < old.entries.len() && #[trigger] old.entries[i].0 == id && old.entries[i].1 == c;
    assert(old.entries[i].0 == id);
}

/// An accepted translation appends exactly one entry, made by the caller from the given
/// fields, and keeps the earlier translations as they were.
pub proof fn law_translation_appended(
    old: RegistryView,
    new: RegistryView,
    id: Seq<char>,
    c: ContentView,
    language: Seq<char>,
    content_hash: Seq<char>,
    translator: Seq<char>,
    now: u64,
    r: Result<(), ContractError>,
)
    requires
        translated(old, new, id, language, content_hash, translator, now, r),
        stored_as(old.entries, id, c),
        c.target_languages.contains(language),
        !has_translation(c, language),
    ensures
        r is Ok,
        exists|d: ContentView|
            #![trigger stored_as(new.entries, id, d)]
            stored_as(new.entries, id, d) && d.translations.len() == c.translations.len() + 1
                && d.translations.last() == (TranslationView {
                language,
                content_hash,
                translator,
                created_at: now,
            }) && d.translations.drop_last() == c.translations,
{
    let i = choose|i: int| 0 <= i < old.entries.len() && #[trigger] old.entries[i].0 == id && old.entries[i].1 == c;
    assert(old.entries[i].0 == id);
    let t = TranslationView { language, content_hash, translator, created_at: now };
    let d = with_translation(c, t);
    assert(crate::content::translation_refusal(c, language) is None);
    assert(new.entries[i] == (id, d));
    assert(new.entries[i].0 == id && new.entries[i].1 == d);
    assert(d.translations.drop_last() =~= c.translations);
    assert(stored_as(new.entries, id, d));
}

proof fn lemma_unbounded_is_all(entries: Seq<(Seq<char>, ContentView)>)
    ensures
        contents_after(entries, None) =~= entries.map_values(|e: (Seq<char>, ContentView)| e.1),
    decreases entries.len(),
{
    if entries.len() > 0 {
        lemma_unbounded_is_all(entries.drop_last());
    }
}

/// A listing with neither bound nor limit gives the first 30 records in ascending
/// identifier order.
pub proof fn law_default_listing(v: RegistryView)
    requires
        v.wf(),
    ensures
        first_n(contents_after(v.entries, None), page_size(None)) == first_n(
            v.entries.map_values(|e: (Seq<char>, ContentView)| e.1),
            30,
        ),
        sorted_keys(v.entries),
{
    lemma_unbounded_is_all(v.entries);
}

proof fn lemma_after_is_suffix(entries: Seq<(Seq<char>, ContentView)>, s: Seq<char>) -> (k: int)
    requires
        sorted_keys(entries),
    ensures
        0 <= k <= entries.len(),
        forall|i: int| 0 <= i < k ==> !lex_lt(s, #[trigger] entries[i].0),
        forall|i: int| k <= i < entries.len() ==> lex_lt(s, #[trigger] entries[i].0),
        contents_after(entries, Some(s)) =~= entries.subrange(k, entries.len() as int).map_values(
            |e: (Seq<char>, ContentView)| e.1,
        ),
    decreases entries.len(),
{
    if entries.len() == 0 {
        0
    } else {
        let e = entries.drop_last();
        let n = entries.len() - 1;
        assert(sorted_keys(e)) by {
            assert forall|i: int, j: int| 0 <= i < j < e.len() implies lex_lt(
                #[trigger] e[i].0,
                #[trigger] e[j].0,
            ) by {
                assert(lex_lt(entries[i].0, entries[j].0));
            }
        }
        let k0 = lemma_after_is_suffix(e, s);
        assert forall|i: int| 0 <= i < n implies #[trigger] entries[i] == e[i] by {}
        if is_after(entries.last().0, Some(s)) {
            assert(entries.subrange(k0, n + 1) =~= e.subrange(k0, n).push(entries.last()));
            assert forall|i: int| 0 <= i < k0 implies !lex_lt(s, #[trigger] entries[i].0) by {
                assert(entries[i] == e[i]);
            }
            assert forall|i: int| k0 <= i < entries.len() implies lex_lt(s, #[trigger] entries[i].0) by {
                if i < n {
                    assert(entries[i] == e[i]);
                }
            }
            k0
        } else {
            assert forall|i: int| 0 <= i < n implies !lex_lt(s, #[trigger] entries[i].0) by {
                if lex_lt(s, entries[i].0) {
                    assert(lex_lt(entries[i].0, entries[n].0));
                    lemma_lex_transitive(s, entries[i].0, entries[n].0);
                }
            }
            if k0 < n {
                assert(lex_lt(s, e[k0].0));
                assert(entries[k0] == e[k0]);
            }
            assert(e.subrange(k0, n) =~= Seq::<(Seq<char>, ContentView)>::empty());
            assert forall|i: int| 0 <= i < n + 1 implies !lex_lt(s, #[trigger] entries[i].0) by {}
            n + 1
        }
    }
}

/// A listing that starts after `s` gives exactly the records whose identifier sorts
/// strictly after `s`: they form a suffix of the identifier order, and `s` itself is never
/// among them.
pub proof fn law_listing_starts_after(v: RegistryView, s: Seq<char>) -> (k: int)
    requires
        v.wf(),
    ensures
        0 <= k <= v.entries.len(),
        forall|i: int| 0 <= i < k ==> !lex_lt(s, #[trigger] v.entries[i].0),
        forall|i: int| k <= i < v.entries.len() ==> lex_lt(s, #[trigger] v.entries[i].0),
        forall|i: int| k <= i < v.entries.len() ==> #[trigger] v.entries[i].0 != s,
        contents_after(v.entries, Some(s)) == v.entries.subrange(k, v.entries.len() as int).map_values(
            |e: (Seq<char>, ContentView)| e.1,
        ),
{
    let k = lemma_after_is_suffix(v.entries, s);
    assert forall|i: int| k <= i < v.entries.len() implies #[trigger] v.entries[i].0 != s by {
        crate::order::lemma_lex_irreflexive(s);
    }
    k
}

/// The owner query gives exactly the records of that owner, and nothing when there are
/// none.
pub proof fn law_owner_query(entries: Seq<(Seq<char>, ContentView)>, owner: Seq<char>)
    ensures
        forall|c: ContentView|
            #[trigger] owned_by(entries, owner).contains(c) <==> (c.owner == owner && exists|i: int|
                0 <= i < entries.len() && #[trigger] entries[i].1 == c),
        (forall|i: int| 0 <= i < entries.len() ==> #[trigger] entries[i].1.owner != owner) ==> owned_by(
            entries,
            owner,
        ).len() == 0,
    decreases entries.len(),
{
    if entries.len() > 0 {
        let e = entries.drop_last();
        law_owner_query(e, owner);
        let rest = owned_by(e, owner);
        let last = entries.last();
        let all = owned_by(entries, owner);
        if last.1.owner == owner {
            assert(all == rest.push(last.1));
        } else {
            assert(all == rest);
        }
        assert forall|c: ContentView|
            #[trigger] owned_by(entries, owner).contains(c) <==> (c.owner == owner && exists|i: int|
                0 <= i < entries.len() && #[trigger] entries[i].1 == c) by {
            if all.contains(c) {
                let j = choose|j: int| 0 <= j < all.len() && all[j] == c;
                if j < rest.len() {
                    assert(rest[j] == c);
                    assert(rest.contains(c));
                    let i = choose|i: int| 0 <= i < e.len() && #[trigger] e[i].1 == c;
                    assert(entries[i].1 == c);
                } else {
                    assert(entries[entries.len() - 1].1 == c);
                }
            }
            if c.owner == owner && exists|i: int| 0 <= i < entries.len() && #[trigger] entries[i].1 == c {
                let i = choose|i: int| 0 <= i < entries.len() && #[trigger] entries[i].1 == c;
                if i < e.len() {
                    assert(e[i].1 == c);
                    assert(rest.contains(c));
                    let j = choose|j: int| 0 <= j < rest.len() && rest[j] == c;
                    assert(all[j] == c);
                } else {
                    assert(all[rest.len() as int] == c);
                }
            }
        }
        if forall|i: int| 0 <= i < entries.len() ==> #[trigger] entries[i].1.owner != owner {
            assert(entries[entries.len() - 1].1.owner != owner);
            assert forall|i: int| 0 <= i < e.len() implies #[trigger] e[i].1.owner != owner by {
                assert(entries[i].1.owner != owner);
            }
        }
    }
}

} // verus!

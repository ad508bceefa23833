//! The registry: configuration, the counter, and the records kept in identifier order.
use vstd::prelude::*;
use vstd::pervasive::VecAdditionalExecFns;
use crate::content::{
    content_wf, fresh_content, strings_view, translation_refusal, with_translation, Content,
    ContentView, ContractError, TranslationView,
};
use crate::ident::{decimal_of, lemma_decimal_injective, next_content_id};
use crate::listing::{
    contents_after, contents_view, entries_view, first_n, owned_by, page_size, select_owned,
    select_page, start_view,
};
use crate::msg::{
    Config, ContentListResponse, ContentResponse, ExecuteMsg, ExecuteOutcome, InstantiateMsg,
    QueryMsg, QueryResponse,
};
use crate::order::{key_lt, lemma_lex_irreflexive, lemma_lex_total, lemma_lex_transitive, lex_lt};

verus! {

/// The registry as a value: its owner, its counter, and its records in ascending
/// identifier order.
pub struct RegistryView {
    pub owner: Seq<char>,
    pub count: nat,
    pub entries: Seq<(Seq<char>, ContentView)>,
}

/// Some record is stored under `key`.
pub open spec fn has_key(entries: Seq<(Seq<char>, ContentView)>, key: Seq<char>) -> bool {
    exists|i: int| 0 <= i < entries.len() && #[trigger] entries[i].0 == key
}

/// `c` is the record stored under `key`.
pub open spec fn stored_as(entries: Seq<(Seq<char>, ContentView)>, key: Seq<char>, c: ContentView) -> bool {
    exists|i: int| 0 <= i < entries.len() && #[trigger] entries[i].0 == key && entries[i].1 == c
}

/// `key` is the decimal form of a counter value handed out so far.
pub open spec fn issued(key: Seq<char>, count: nat) -> bool {
    exists|k: nat| 1 <= k <= count && #[trigger] decimal_of(k) == key
}

/// The identifiers strictly ascend.
pub open spec fn sorted_keys(entries: Seq<(Seq<char>, ContentView)>) -> bool {
    forall|i: int, j: int| 0 <= i < j < entries.len() ==> lex_lt(#[trigger] entries[i].0, #[trigger] entries[j].0)
}

impl RegistryView {
    pub open spec fn wf(self) -> bool {
        &&& self.count <= u64::MAX
        &&& sorted_keys(self.entries)
        &&& forall|i: int| #![trigger self.entries[i]] 0 <= i < self.entries.len() ==> issued(self.entries[i].0, self.count)
        &&& forall|i: int| #![trigger self.entries[i]] 0 <= i < self.entries.len() ==> content_wf(self.entries[i].1)
    }
}

/// The effect of a registration: `id` is the decimal form of the advanced counter, and
/// `c` is stored under it, the other records untouched.
pub open spec fn registered(old: RegistryView, new: RegistryView, id: Seq<char>, c: ContentView) -> bool {
    &&& id == decimal_of(old.count + 1)
    &&& new.owner == old.owner
    &&& new.count == old.count + 1
    &&& exists|p: int| 0 <= p <= old.entries.len() && new.entries == old.entries.insert(p, (id, c))
}

/// The effect of adding a translation of the record under `id`: refused with `NotFound`
/// when there is none, refused as `translation_refusal` says, else the translation is
/// appended to that record alone.
pub open spec fn translated(
    old: RegistryView,
    new: RegistryView,
    id: Seq<char>,
    language: Seq<char>,
    content_hash: Seq<char>,
    translator: Seq<char>,
    now: u64,
    r: Result<(), ContractError>,
) -> bool {
    &&& !has_key(old.entries, id) ==> r == Err::<(), ContractError>(ContractError::NotFound) && new == old
    &&& forall|i: int| #![trigger old.entries[i]]
        0 <= i < old.entries.len() && old.entries[i].0 == id ==> match translation_refusal(
            old.entries[i].1,
            language,
        ) {
            Some(e) => r == Err::<(), ContractError>(e) && new == old,
            None => r is Ok && new == RegistryView {
                entries: old.entries.update(
                    i,
                    (
                        id,
                        with_translation(
                            old.entries[i].1,
                            TranslationView { language, content_hash, translator, created_at: now },
                        ),
                    ),
                ),
                ..old
            },
        }
}

/// The registry state that the logic works on.
pub struct Registry {
    config: Config,
    count: u64,
    entries: Vec<(String, Content)>,
}

impl View for Registry {
    type V = RegistryView;

    closed spec fn view(&self) -> RegistryView {
        RegistryView {
            owner: self.config.owner@,
            count: self.count as nat,
            entries: entries_view(self.entries@),
        }
    }
}

impl Registry {
    pub open spec fn wf(&self) -> bool {
        self@.wf()
    }

    pub fn config(&self) -> (r: &Config)
        ensures
            r.owner@ == self@.owner,
    {
        &self.config
    }

    pub fn count(&self) -> (r: u64)
        ensures
            r == self@.count,
    {
        self.count
    }
}

/// Keys are unique in a well-formed registry.
proof fn lemma_unique_key(v: RegistryView, i: int, j: int)
    requires
        v.wf(),
        0 <= i < v.entries.len(),
        0 <= j < v.entries.len(),
        v.entries[i].0 == v.entries[j].0,
    ensures
        i == j,
{
    lemma_lex_irreflexive(v.entries[i].0);
    if i < j {
        assert(lex_lt(v.entries[i].0, v.entries[j].0));
    } else if j < i {
        assert(lex_lt(v.entries[j].0, v.entries[i].0));
    }
}

/// Starts a registry owned by `msg.owner`, with the counter at zero and no records.
pub fn instantiate(msg: InstantiateMsg) -> (r: Registry)
    ensures
        r.wf(),
        r@.owner == msg.owner@,
        r@.count == 0,
        r@.entries.len() == 0,
{
    let r = Registry { config: Config { owner: msg.owner }, count: 0, entries: Vec::new() };
    assert(r@.entries.len() == 0);
    r
}

fn find_entry(entries: &Vec<(String, Content)>, key: &String) -> (r: Option<usize>)
    ensures
        match r {
            Some(i) => i < entries@.len() && entries_view(entries@)[i as int].0 == key@,
            None => !has_key(entries_view(entries@), key@),
        },
{
    let mut i: usize = 0;
    while i < entries.len()
        invariant
            i <= entries.len(),
            forall|j: int| 0 <= j < i ==> #[trigger] entries_view(entries@)[j].0 != key@,
        decreases entries.len() - i,
    {
        if entries[i].0 == *key {
            return Some(i);
        }
        i = i + 1;
    }
    None
}

/// Registers a record owned by `sender` and stamped `now`, under the next identifier,
/// which it returns. The record has no translations; the other fields are taken as given.
pub fn execute_register_content(
    registry: &mut Registry,
    sender: String,
    now: u64,
    title: String,
    description: String,
    content_type: String,
    content_hash: String,
    target_languages: Vec<String>,
) -> (id: String)
    requires
        old(registry).wf(),
        old(registry)@.count < u64::MAX,
    ensures
        final(registry).wf(),
        !has_key(old(registry)@.entries, id@),
        registered(
            old(registry)@,
            final(registry)@,
            id@,
            fresh_content(
                sender@,
                title@,
                description@,
                content_type@,
                content_hash@,
                strings_view(target_languages@),
                now,
            ),
        ),
{
    let ghost old_v = registry@;
    let (next, id) = next_content_id(registry.count);
    assert forall|i: int| 0 <= i < old_v.entries.len() implies #[trigger] old_v.entries[i].0 != id@ by {
        let k = choose|k: nat| 1 <= k <= old_v.count && #[trigger] decimal_of(k) == old_v.entries[i].0;
        if old_v.entries[i].0 == id@ {
            lemma_decimal_injective(k, next as nat);
        }
    }
    let content = Content::fresh(
        sender,
        now,
        title,
        description,
        content_type,
        content_hash,
        target_languages,
    );
    let ghost c = content@;
    let mut p: usize = 0;
    while p < registry.entries.len() && !key_lt(&id, &registry.entries[p].0)
        invariant
            p <= registry.entries.len(),
            registry@ == old_v,
            forall|i: int| 0 <= i < old_v.entries.len() ==> #[trigger] old_v.entries[i].0 != id@,
            forall|j: int| 0 <= j < p ==> lex_lt(#[trigger] old_v.entries[j].0, id@),
        decreases registry.entries.len() - p,
    {
        proof {
            lemma_lex_total(id@, old_v.entries[p as int].0);
        }
        p = p + 1;
    }
    let key = id.clone();
    registry.entries.insert(p, (key, content));
    registry.count = next;
    let ghost new_v = registry@;
    assert(new_v.entries =~= old_v.entries.insert(p as int, (id@, c)));
    assert forall|i: int, j: int| 0 <= i < j < new_v.entries.len() implies lex_lt(
        #[trigger] new_v.entries[i].0,
        #[trigger] new_v.entries[j].0,
    ) by {
        if j == p {
        } else if i == p {
            if j - 1 > p {
                lemma_lex_transitive(id@, old_v.entries[p as int].0, old_v.entries[j - 1].0);
            }
        } else if i < p && j > p {
            assert(lex_lt(old_v.entries[i].0, old_v.entries[j - 1].0));
        } else if i > p {
            assert(lex_lt(old_v.entries[i - 1].0, old_v.entries[j - 1].0));
        }
    }
    assert forall|i: int| #![trigger new_v.entries[i]] 0 <= i < new_v.entries.len() implies issued(
        new_v.entries[i].0,
        new_v.count,
    ) && content_wf(new_v.entries[i].1) by {
        if i == p {
            assert(decimal_of(next as nat) == id@);
        } else {
            let q = if i < p { i } else { i - 1 };
            assert(new_v.entries[i] == old_v.entries[q]);
            assert(issued(old_v.entries[q].0, old_v.count));
            let k = choose|k: nat| 1 <= k <= old_v.count && #[trigger] decimal_of(k) == old_v.entries[q].0;
            assert(decimal_of(k) == new_v.entries[i].0);
        }
    }
    id
}

/// Appends a translation by `sender`, stamped `now`, to the record under `content_id`,
/// unless there is no such record, the language is not one of its target languages, or it
/// is already translated; a refusal leaves the registry as it was.
pub fn execute_add_translation(
    registry: &mut Registry,
    sender: String,
    now: u64,
    content_id: String,
    language: String,
    content_hash: String,
) -> (r: Result<(), ContractError>)
    requires
        old(registry).wf(),
    ensures
        final(registry).wf(),
        translated(
            old(registry)@,
            final(registry)@,
            content_id@,
            language@,
            content_hash@,
            sender@,
            now,
            r,
        ),
{
    let ghost old_v = registry@;
    match find_entry(&registry.entries, &content_id) {
        None => Err(ContractError::NotFound),
        Some(i) => {
            assert forall|j: int| 0 <= j < old_v.entries.len() && #[trigger] old_v.entries[j].0
                == content_id@ implies j == i by {
                lemma_unique_key(old_v, i as int, j);
            }
            let mut c = registry.entries[i].1.copy();
            let ghost t = TranslationView {
                language: language@,
                content_hash: content_hash@,
                translator: sender@,
                created_at: now,
            };
            let res = c.add_translation(sender, now, language, content_hash);
            match res {
                Err(e) => Err(e),
                Ok(()) => {
                    let key = registry.entries[i].0.clone();
                    registry.entries.set(i, (key, c));
                    let ghost new_v = registry@;
                    assert(new_v.entries =~= old_v.entries.update(
                        i as int,
                        (content_id@, with_translation(old_v.entries[i as int].1, t)),
                    ));
                    assert(new_v == RegistryView {
                        entries: old_v.entries.update(
                            i as int,
                            (content_id@, with_translation(old_v.entries[i as int].1, t)),
                        ),
                        ..old_v
                    });
                    assert forall|a: int, b: int| 0 <= a < b < new_v.entries.len() implies lex_lt(
                        #[trigger] new_v.entries[a].0,
                        #[trigger] new_v.entries[b].0,
                    ) by {
                        assert(lex_lt(old_v.entries[a].0, old_v.entries[b].0));
                    }
                    assert forall|j: int| #![trigger new_v.entries[j]] 0 <= j < new_v.entries.len()
                        implies issued(new_v.entries[j].0, new_v.count) && content_wf(
                        new_v.entries[j].1,
                    ) by {
                        assert(issued(old_v.entries[j].0, old_v.count));
                        assert(content_wf(old_v.entries[j].1));
                    }
                    Ok(())
                },
            }
        },
    }
}

/// Drops the outcome's payload, keeping whether it succeeded and why not.
pub open spec fn as_unit<T>(r: Result<T, ContractError>) -> Result<(), ContractError> {
    match r {
        Ok(_) => Ok(()),
        Err(e) => Err(e),
    }
}

/// Runs a mutation on behalf of `sender` at time `now` and reports what it did.
pub fn execute(registry: &mut Registry, sender: String, now: u64, msg: ExecuteMsg) -> (r: Result<
    ExecuteOutcome,
    ContractError,
>)
    requires
        old(registry).wf(),
        msg is RegisterContent ==> old(registry)@.count < u64::MAX,
    ensures
        final(registry).wf(),
        match msg {
            ExecuteMsg::RegisterContent {
                title,
                description,
                content_type,
                content_hash,
                target_languages,
            } => r matches Ok(ExecuteOutcome::Registered { content_id: id, owner })
                && owner@ == sender@ && registered(
                old(registry)@,
                final(registry)@,
                id@,
                fresh_content(
                    sender@,
                    title@,
                    description@,
                    content_type@,
                    content_hash@,
                    strings_view(target_languages@),
                    now,
                ),
            ),
            ExecuteMsg::AddTranslation { content_id, language, content_hash } => translated(
                old(registry)@,
                final(registry)@,
                content_id@,
                language@,
                content_hash@,
                sender@,
                now,
                as_unit(r),
            ) && (r matches Ok(o) ==> o matches ExecuteOutcome::Translated {
                content_id: id,
                language: l,
            } && id@ == content_id@ && l@ == language@),
        },
{
    match msg {
        ExecuteMsg::RegisterContent {
            title,
            description,
            content_type,
            content_hash,
            target_languages,
        } => {
            let owner = sender.clone();
            let id = execute_register_content(
                registry,
                sender,
                now,
                title,
                description,
                content_type,
                content_hash,
                target_languages,
            );
            Ok(ExecuteOutcome::Registered { content_id: id, owner })
        },
        ExecuteMsg::AddTranslation { content_id, language, content_hash } => {
            let id = content_id.clone();
            let lang = language.clone();
            match execute_add_translation(registry, sender, now, content_id, language, content_hash) {
                Ok(()) => Ok(ExecuteOutcome::Translated { content_id: id, language: lang }),
                Err(e) => Err(e),
            }
        },
    }
}

/// The record stored under `content_id`, or `NotFound`.
pub fn query_content(registry: &Registry, content_id: String) -> (r: Result<ContentResponse, ContractError>)
    ensures
        match r {
            Ok(resp) => stored_as(registry@.entries, content_id@, resp.content@),
            Err(e) => e == ContractError::NotFound && !has_key(registry@.entries, content_id@),
        },
{
    match find_entry(&registry.entries, &content_id) {
        None => Err(ContractError::NotFound),
        Some(i) => {
            let content = registry.entries[i].1.copy();
            assert(registry@.entries[i as int].1 == content@);
            Ok(ContentResponse { content })
        },
    }
}

/// One page of records in ascending identifier order: those whose identifier sorts
/// strictly after `start_after`, at most `limit` of them (30 when no limit is given).
pub fn list_content(registry: &Registry, start_after: Option<String>, limit: Option<u32>) -> (r:
    ContentListResponse)
    ensures
        contents_view(r.contents@) == first_n(
            contents_after(registry@.entries, start_view(start_after)),
            page_size(limit),
        ),
{
    ContentListResponse { contents: select_page(&registry.entries, &start_after, limit) }
}

/// Every record owned by `owner`, in ascending identifier order.
pub fn query_content_by_owner(registry: &Registry, owner: String) -> (r: ContentListResponse)
    ensures
        contents_view(r.contents@) == owned_by(registry@.entries, owner@),
{
    ContentListResponse { contents: select_owned(&registry.entries, &owner) }
}

/// Answers a query.
pub fn query(registry: &Registry, msg: QueryMsg) -> (r: Result<QueryResponse, ContractError>)
    ensures
        match msg {
            QueryMsg::GetContent { content_id } => match r {
                Ok(QueryResponse::Content(resp)) => stored_as(
                    registry@.entries,
                    content_id@,
                    resp.content@,
                ),
                Err(e) => e == ContractError::NotFound && !has_key(registry@.entries, content_id@),
                _ => false,
            },
            QueryMsg::ListContent { start_after, limit } => r matches Ok(QueryResponse::List(l))
                && contents_view(l.contents@) == first_n(
                contents_after(registry@.entries, start_view(start_after)),
                page_size(limit),
            ),
            QueryMsg::GetContentByOwner { owner } => r matches Ok(QueryResponse::List(l))
                && contents_view(l.contents@) == owned_by(registry@.entries, owner@),
        },
{
    match msg {
        QueryMsg::GetContent { content_id } => match query_content(registry, content_id) {
            Ok(resp) => Ok(QueryResponse::Content(resp)),
            Err(e) => Err(e),
        },
        QueryMsg::ListContent { start_after, limit } => Ok(
            QueryResponse::List(list_content(registry, start_after, limit)),
        ),
        QueryMsg::GetContentByOwner { owner } => Ok(
            QueryResponse::List(query_content_by_owner(registry, owner)),
        ),
    }
}

} // verus!

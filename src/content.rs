//! Content records, their translations, and the rules for adding a translation.
use vstd::prelude::*;

verus! {

/// A completed translation of a piece of content.
#[derive(Clone, Debug, PartialEq, Eq)]
pub struct Translation {
    pub language: String,
    pub content_hash: String,
    pub translator: String,
    pub created_at: u64,
}

/// A registered piece of content.
#[derive(Clone, Debug, PartialEq, Eq)]
pub struct Content {
    pub owner: String,
    pub title: String,
    pub description: String,
    pub content_type: String,
    pub content_hash: String,
    pub target_languages: Vec<String>,
    pub translations: Vec<Translation>,
    pub created_at: u64,
}

/// Why a mutation or a query was refused.
#[derive(Clone, Copy, Debug, PartialEq, Eq, Structural)]
pub enum ContractError {
    /// No content is stored under the identifier.
    NotFound,
    /// The language is not among the content's target languages.
    InvalidLanguage,
    /// The content already has a translation in that language.
    DuplicateTranslation,
}

pub struct TranslationView {
    pub language: Seq<char>,
    pub content_hash: Seq<char>,
    pub translator: Seq<char>,
    pub created_at: u64,
}

pub struct ContentView {
    pub owner: Seq<char>,
    pub title: Seq<char>,
    pub description: Seq<char>,
    pub content_type: Seq<char>,
    pub content_hash: Seq<char>,
    pub target_languages: Seq<Seq<char>>,
    pub translations: Seq<TranslationView>,
    pub created_at: u64,
}

impl View for Translation {
    type V = TranslationView;

    open spec fn view(&self) -> TranslationView {
        TranslationView {
            language: self.language@,
            content_hash: self.content_hash@,
            translator: self.translator@,
            created_at: self.created_at,
        }
    }
}

pub open spec fn strings_view(v: Seq<String>) -> Seq<Seq<char>> {
    v.map_values(|s: String| s@)
}

impl View for Content {
    type V = ContentView;

    open spec fn view(&self) -> ContentView {
        ContentView {
            owner: self.owner@,
            title: self.title@,
            description: self.description@,
            content_type: self.content_type@,
            content_hash: self.content_hash@,
            target_languages: strings_view(self.target_languages@),
            translations: self.translations@.map_values(|t: Translation| t@),
            created_at: self.created_at,
        }
    }
}

/// The content already holds a translation in `language`.
pub open spec fn has_translation(c: ContentView, language: Seq<char>) -> bool {
    exists|i: int| 0 <= i < c.translations.len() && #[trigger] c.translations[i].language == language
}

/// What adding a translation in `language` to `c` runs into, if anything.
pub open spec fn translation_refusal(c: ContentView, language: Seq<char>) -> Option<ContractError> {
    if !c.target_languages.contains(language) {
        Some(ContractError::InvalidLanguage)
    } else if has_translation(c, language) {
        Some(ContractError::DuplicateTranslation)
    } else {
        None
    }
}

/// `c` with `t` appended to its translations, everything else as it was.
pub open spec fn with_translation(c: ContentView, t: TranslationView) -> ContentView {
    ContentView { translations: c.translations.push(t), ..c }
}

/// Every translation is in a target language, and no language is translated twice.
pub open spec fn content_wf(c: ContentView) -> bool {
    &&& forall|i: int|
        0 <= i < c.translations.len() ==> c.target_languages.contains(
            #[trigger] c.translations[i].language,
        )
    &&& forall|i: int, j: int|
        0 <= i < j < c.translations.len() ==> #[trigger] c.translations[i].language
            != #[trigger] c.translations[j].language
}

/// A fresh record: no translations yet, stamped with the registration time.
pub open spec fn fresh_content(
    owner: Seq<char>,
    title: Seq<char>,
    description: Seq<char>,
    content_type: Seq<char>,
    content_hash: Seq<char>,
    target_languages: Seq<Seq<char>>,
    now: u64,
) -> ContentView {
    ContentView {
        owner,
        title,
        description,
        content_type,
        content_hash,
        target_languages,
        translations: Seq::empty(),
        created_at: now,
    }
}

pub(crate) fn copy_strings(v: &Vec<String>) -> (r: Vec<String>)
    ensures
        strings_view(r@) == strings_view(v@),
{
    let mut r: Vec<String> = Vec::new();
    let mut i: usize = 0;
    while i < v.len()
        invariant
            i <= v.len(),
            strings_view(r@) =~= strings_view(v@.take(i as int)),
        decreases v.len() - i,
    {
        let s = v[i].clone();
        assert(s@ == v@[i as int]@);
        r.push(s);
        assert(v@.take(i + 1) =~= v@.take(i as int).push(v@[i as int]));
        assert(strings_view(r@) =~= strings_view(v@.take(i as int)).push(s@));
        i = i + 1;
    }
    assert(v@.take(i as int) =~= v@);
    r
}

impl Translation {
    pub(crate) fn copy(&self) -> (r: Translation)
        ensures
            r@ == self@,
    {
        Translation {
            language: self.language.clone(),
            content_hash: self.content_hash.clone(),
            translator: self.translator.clone(),
            created_at: self.created_at,
        }
    }
}

impl Content {
    pub(crate) fn copy(&self) -> (r: Content)
        ensures
            r@ == self@,
    {
        let mut translations: Vec<Translation> = Vec::new();
        let mut i: usize = 0;
        while i < self.translations.len()
            invariant
                i <= self.translations.len(),
                translations@.map_values(|t: Translation| t@) =~= self.translations@.take(
                    i as int,
                ).map_values(|t: Translation| t@),
            decreases self.translations.len() - i,
        {
            let t = self.translations[i].copy();
            translations.push(t);
            assert(self.translations@.take(i + 1) =~= self.translations@.take(i as int).push(
                self.translations@[i as int],
            ));
            assert(translations@.map_values(|t: Translation| t@) =~= self.translations@.take(
                i as int,
            ).map_values(|t: Translation| t@).push(t@));
            i = i + 1;
        }
        assert(self.translations@.take(i as int) =~= self.translations@);
        Content {
            owner: self.owner.clone(),
            title: self.title.clone(),
            description: self.description.clone(),
            content_type: self.content_type.clone(),
            content_hash: self.content_hash.clone(),
            target_languages: copy_strings(&self.target_languages),
            translations,
            created_at: self.created_at,
        }
    }

    /// Appends a translation in `language` by `translator` at time `now`, unless the
    /// language is not a target language or is already translated; then the content is
    /// left as it was.
    pub fn add_translation(
        &mut self,
        translator: String,
        now: u64,
        language: String,
        content_hash: String,
    ) -> (r: Result<(), ContractError>)
        ensures
            match translation_refusal(old(self)@, language@) {
                Some(e) => r == Err::<(), ContractError>(e) && final(self)@ == old(self)@,
                None => r is Ok && final(self)@ == with_translation(
                    old(self)@,
                    TranslationView {
                        language: language@,
                        content_hash: content_hash@,
                        translator: translator@,
                        created_at: now,
                    },
                ),
            },
            content_wf(old(self)@) ==> content_wf(final(self)@),
    {
        let mut i: usize = 0;
        let mut known = false;
        while i < self.target_languages.len()
            invariant
                i <= self.target_languages.len(),
                known == strings_view(self.target_languages@.take(i as int)).contains(language@),
            decreases self.target_languages.len() - i,
        {
            let same = self.target_languages[i] == language;
            proof {
                let s = strings_view(self.target_languages@.take(i + 1));
                let p = strings_view(self.target_languages@.take(i as int));
                assert(self.target_languages@.take(i + 1) =~= self.target_languages@.take(
                    i as int,
                ).push(self.target_languages@[i as int]));
                assert(s =~= p.push(self.target_languages@[i as int]@));
                assert(same == (s[i as int] == language@));
                if same {
                    assert(s[i as int] == language@);
                }
                if p.contains(language@) {
                    let k = choose|k: int| 0 <= k < p.len() && p[k] == language@;
                    assert(s[k] == language@);
                }
                if s.contains(language@) {
                    let k = choose|k: int| 0 <= k < s.len() && s[k] == language@;
                    if k < p.len() {
                        assert(p[k] == language@);
                    }
                }
            }
            if same {
                known = true;
            }
            i = i + 1;
        }
        assert(self.target_languages@.take(i as int) =~= self.target_languages@);
        if !known {
            return Err(ContractError::InvalidLanguage);
        }
        let mut j: usize = 0;
        while j < self.translations.len()
            invariant
                j <= self.translations.len(),
                self@.target_languages.contains(language@),
                forall|k: int| 0 <= k < j ==> #[trigger] self.translations@[k].language@ != language@,
            decreases self.translations.len() - j,
        {
            if self.translations[j].language == language {
                assert(self@.translations[j as int].language == language@);
                assert(has_translation(self@, language@));
                return Err(ContractError::DuplicateTranslation);
            }
            j = j + 1;
        }
        assert(!has_translation(self@, language@)) by {
            assert forall|k: int| 0 <= k < self@.translations.len() implies
                #[trigger] self@.translations[k].language != language@ by {
                assert(self@.translations[k] == self.translations@[k]@);
            }
        }
        let ghost before = self@;
        let t = Translation { language, content_hash, translator, created_at: now };
        self.translations.push(t);
        assert(self@.translations =~= before.translations.push(t@));
        assert(self@ =~= with_translation(before, t@));
        Ok(())
    }

    /// A record registered by `owner` at time `now`, with no translations yet.
    pub fn fresh(
        owner: String,
        now: u64,
        title: String,
        description: String,
        content_type: String,
        content_hash: String,
        target_languages: Vec<String>,
    ) -> (r: Content)
        ensures
            r@ == fresh_content(
                owner@,
                title@,
                description@,
                content_type@,
                content_hash@,
                strings_view(target_languages@),
                now,
            ),
            content_wf(r@),
    {
        let r = Content {
            owner,
            title,
            description,
            content_type,
            content_hash,
            target_languages,
            translations: Vec::new(),
            created_at: now,
        };
        assert(r@.translations =~= Seq::<TranslationView>::empty());
        r
    }
}

} // verus!

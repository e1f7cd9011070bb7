//! The chunked translation pipeline: a mock per-chunk transform memoized by
//! a cache keyed on text and language pair, page-level assembly with offset
//! bookkeeping, document-level aggregation, and a heuristic language
//! detector.
//!
//! The transform itself is a placeholder that tags the text with the target
//! language; the chunking, caching and reassembly around it are the real
//! logic. The cache is never evicted and grows without bound for the life
//! of the service instance: a known limitation, accepted by design.
use vstd::prelude::*;
use vstd::string::StrSliceExecFns;
use vstd::string::StringExecFns;

use crate::assoc::distinct_keys;
use crate::assoc::entries_map;
use crate::assoc::lemma_entries_map_get;
use crate::assoc::lemma_entries_map_push;
use crate::chunk::chunk_seq;
use crate::chunk::chunk_text;
use crate::chunk::join_start;
use crate::chunk::space_join;
use crate::strutil::str_eq;

verus! {

/// How a transform request is parameterized: an optional source language,
/// a required target language, and a formatting flag the mock transform
/// ignores.
pub struct TranslationOptions {
    pub source_language: Option<String>,
    pub target_language: String,
    pub preserve_formatting: Option<bool>,
}

/// One transformed text: the input, its translation, and the resolved
/// language pair.
pub struct TranslationResult {
    pub original: String,
    pub translated: String,
    pub source_language: String,
    pub target_language: String,
}

/// One chunk of a translated page, with its position in the space-joined
/// original text.
pub struct TranslationChunk {
    pub index: usize,
    pub original: String,
    pub translated: String,
    pub start_offset: usize,
    pub end_offset: usize,
}

/// A fully translated page: the original text, the space-joined
/// translation, and the per-chunk results in order.
pub struct PageTranslationResult {
    pub page_number: usize,
    pub original: String,
    pub translated: String,
    pub chunks: Vec<TranslationChunk>,
}

/// A fully translated document: the per-page results in order, the
/// resolved language pair, and a completion timestamp.
pub struct DocumentTranslationResult {
    pub pages: Vec<PageTranslationResult>,
    pub total_pages: usize,
    pub source_language: String,
    pub target_language: String,
    pub completed_at: String,
}

impl TranslationOptions {
    /// The source language as it enters the cache key: "auto" when the
    /// caller named none.
    pub open spec fn source_key(&self) -> Seq<char> {
        match self.source_language {
            Some(s) => s@,
            None => "auto"@,
        }
    }

    /// The source language as it is reported in results: "en" when the
    /// caller named none.
    pub open spec fn source_label(&self) -> Seq<char> {
        match self.source_language {
            Some(s) => s@,
            None => "en"@,
        }
    }
}

/// The cache key under which a transform of `text` from `source_key` to
/// `target` is stored.
pub open spec fn cache_key_of(text: Seq<char>, source_key: Seq<char>, target: Seq<char>) -> Seq<
    char,
> {
    text + "-"@ + source_key + "-"@ + target
}

/// What the mock transform returns: the text tagged with the target
/// language, or the text unchanged for an unknown target.
pub open spec fn mock_translated(text: Seq<char>, target: Seq<char>) -> Seq<char> {
    if target == "es"@ {
        "[ES: "@ + text + "]"@
    } else if target == "fr"@ {
        "[FR: "@ + text + "]"@
    } else if target == "de"@ {
        "[DE: "@ + text + "]"@
    } else if target == "zh"@ {
        "[中文: "@ + text + "]"@
    } else if target == "ja"@ {
        "[日本語: "@ + text + "]"@
    } else if target == "ar"@ {
        "[عربي: "@ + text + "]"@
    } else if target == "hi"@ {
        "[हिन्दी: "@ + text + "]"@
    } else {
        text
    }
}

/// What one transform returns under cache `cache`: the cached value when
/// the key is present, the mock transform of the text otherwise.
pub open spec fn step_translated(
    cache: Map<Seq<char>, Seq<char>>,
    text: Seq<char>,
    source_key: Seq<char>,
    target: Seq<char>,
) -> Seq<char> {
    let k = cache_key_of(text, source_key, target);
    if cache.dom().contains(k) {
        cache[k]
    } else {
        mock_translated(text, target)
    }
}

/// The cache after one transform: the result stored under its key.
pub open spec fn step_cache(
    cache: Map<Seq<char>, Seq<char>>,
    text: Seq<char>,
    source_key: Seq<char>,
    target: Seq<char>,
) -> Map<Seq<char>, Seq<char>> {
    cache.insert(
        cache_key_of(text, source_key, target),
        step_translated(cache, text, source_key, target),
    )
}

/// Repeating a transform with the same text and language pair gives the
/// identical output both times and leaves the cache exactly as it was:
/// once a key is stored, the underlying transform is never consulted for
/// it again.
pub proof fn lemma_transform_idempotent(
    cache: Map<Seq<char>, Seq<char>>,
    text: Seq<char>,
    source_key: Seq<char>,
    target: Seq<char>,
)
    ensures
        step_translated(step_cache(cache, text, source_key, target), text, source_key, target)
            == step_translated(cache, text, source_key, target),
        step_cache(step_cache(cache, text, source_key, target), text, source_key, target)
            == step_cache(cache, text, source_key, target),
{
    let k = cache_key_of(text, source_key, target);
    let m1 = step_cache(cache, text, source_key, target);
    assert(m1.dom().contains(k));
    assert(m1[k] == step_translated(cache, text, source_key, target));
    assert(step_cache(m1, text, source_key, target) =~= m1);
}

/// The translation service: a memoizing transform cache and a counter of
/// how often the underlying mock transform has actually run.
pub struct TranslationService {
    cache: Vec<(String, String)>,
    transform_calls: u64,
}

impl TranslationService {
    /// The memoized transforms, as a map from cache key to stored result.
    pub closed spec fn cache_map(&self) -> Map<Seq<char>, Seq<char>> {
        entries_map(self.cache@)
    }

    /// How often the underlying transform has run since construction,
    /// saturating at the counter's maximum.
    pub closed spec fn calls(&self) -> u64 {
        self.transform_calls
    }

    /// The cache holds each key at most once.
    pub closed spec fn wf(&self) -> bool {
        distinct_keys(self.cache@)
    }

    /// Creates a service with an empty cache.
    pub fn new() -> (s: Self)
        ensures
            s.wf(),
            s.cache_map() == Map::<Seq<char>, Seq<char>>::empty(),
            s.calls() == 0,
    {
        Self { cache: Vec::new(), transform_calls: 0 }
    }

    /// How often the underlying transform has actually run: repeated
    /// requests for an already-cached key do not increase this.
    pub fn transform_call_count(&self) -> (n: u64)
        ensures
            n == self.calls(),
    {
        self.transform_calls
    }

    fn cache_lookup(&self, key: &String) -> (r: Option<String>)
        requires
            self.wf(),
        ensures
            match r {
                Some(v) => self.cache_map().dom().contains(key@) && v@ == self.cache_map()[key@],
                None => !self.cache_map().dom().contains(key@),
            },
    {
        proof {
            lemma_entries_map_get(self.cache@, key@);
        }
        let n = self.cache.len();
        let mut i: usize = 0;
        while i < n
            invariant
                self.wf(),
                n == self.cache@.len(),
                i <= n,
                forall|j: int| 0 <= j < i ==> (#[trigger] self.cache@[j]).0@ != key@,
            decreases n - i,
        {
            if self.cache[i].0 == *key {
                proof {
                    lemma_entries_map_get(self.cache@, key@);
                }
                return Some(self.cache[i].1.clone());
            }
            i = i + 1;
        }
        None
    }

    fn cache_insert(&mut self, key: String, value: String)
        requires
            old(self).wf(),
            !old(self).cache_map().dom().contains(key@),
        ensures
            final(self).wf(),
            final(self).cache_map() == old(self).cache_map().insert(key@, value@),
            final(self).calls() == old(self).calls(),
    {
        proof {
            lemma_entries_map_get(self.cache@, key@);
            lemma_entries_map_push(self.cache@, (key, value));
        }
        let ghost prev = self.cache@;
        self.cache.push((key, value));
        proof {
            assert(forall|j: int| 0 <= j < prev.len() ==> #[trigger] self.cache@[j] == prev[j]);
        }
    }

    /// The mock transform: tags the text with the target language, or
    /// hands it back unchanged for a target it does not know.
    fn mock_translate(text: &str, target_lang: &str) -> (r: String)
        ensures
            r@ == mock_translated(text@, target_lang@),
    {
        let mut out: String;
        if str_eq(target_lang, "es") {
            out = String::from_str("[ES: ");
        } else if str_eq(target_lang, "fr") {
            out = String::from_str("[FR: ");
        } else if str_eq(target_lang, "de") {
            out = String::from_str("[DE: ");
        } else if str_eq(target_lang, "zh") {
            out = String::from_str("[中文: ");
        } else if str_eq(target_lang, "ja") {
            out = String::from_str("[日本語: ");
        } else if str_eq(target_lang, "ar") {
            out = String::from_str("[عربي: ");
        } else if str_eq(target_lang, "hi") {
            out = String::from_str("[हिन्दी: ");
        } else {
            return String::from_str(text);
        }
        out.append(text);
        out.append("]");
        out
    }

    /// Transforms one text, consulting the cache first and storing the
    /// result for later requests with the same text and language pair.
    pub fn translate_text(&mut self, text: &str, options: &TranslationOptions) -> (r:
        TranslationResult)
        requires
            old(self).wf(),
        ensures
            final(self).wf(),
            r.original@ == text@,
            r.source_language@ == options.source_label(),
            r.target_language@ == options.target_language@,
            r.translated@ == step_translated(
                old(self).cache_map(),
                text@,
                options.source_key(),
                options.target_language@,
            ),
            final(self).cache_map() == step_cache(
                old(self).cache_map(),
                text@,
                options.source_key(),
                options.target_language@,
            ),
            old(self).cache_map().dom().contains(
                cache_key_of(text@, options.source_key(), options.target_language@),
            ) ==> final(self).calls() == old(self).calls(),
            !old(self).cache_map().dom().contains(
                cache_key_of(text@, options.source_key(), options.target_language@),
            ) && old(self).calls() < u64::MAX ==> final(self).calls() == old(self).calls() + 1,
            final(self).calls() >= old(self).calls(),
    {
        let mut key = String::from_str(text);
        key.append("-");
        match &options.source_language {
            Some(s) => key.append(s.as_str()),
            None => key.append("auto"),
        }
        key.append("-");
        key.append(options.target_language.as_str());
        proof {
            assert(key@ =~= cache_key_of(text@, options.source_key(), options.target_language@));
        }
        let cached = self.cache_lookup(&key);
        let translated = match cached {
            Some(v) => {
                proof {
                    assert(self.cache_map() =~= step_cache(
                        self.cache_map(),
                        text@,
                        options.source_key(),
                        options.target_language@,
                    ));
                }
                v
            },
            None => {
                let result = Self::mock_translate(text, options.target_language.as_str());
                self.cache_insert(key, result.clone());
                if self.transform_calls < u64::MAX {
                    self.transform_calls = self.transform_calls + 1;
                }
                result
            },
        };
        TranslationResult {
            original: String::from_str(text),
            translated,
            source_language: match &options.source_language {
                Some(s) => s.clone(),
                None => String::from_str("en"),
            },
            target_language: options.target_language.clone(),
        }
    }
}

/// The chunk size the page assembler hands to the chunker.
pub const DEFAULT_CHUNK_SIZE: usize = 500;

/// The translations of the `parts` in order, each answered from the cache
/// as it stands when that part's turn comes.
pub open spec fn fold_translated(
    cache: Map<Seq<char>, Seq<char>>,
    parts: Seq<Seq<char>>,
    source_key: Seq<char>,
    target: Seq<char>,
) -> Seq<Seq<char>>
    decreases parts.len(),
{
    if parts.len() == 0 {
        Seq::empty()
    } else {
        seq![step_translated(cache, parts[0], source_key, target)] + fold_translated(
            step_cache(cache, parts[0], source_key, target),
            parts.drop_first(),
            source_key,
            target,
        )
    }
}

/// The cache after all the `parts` have been translated in order.
pub open spec fn fold_cache(
    cache: Map<Seq<char>, Seq<char>>,
    parts: Seq<Seq<char>>,
    source_key: Seq<char>,
    target: Seq<char>,
) -> Map<Seq<char>, Seq<char>>
    decreases parts.len(),
{
    if parts.len() == 0 {
        cache
    } else {
        fold_cache(
            step_cache(cache, parts[0], source_key, target),
            parts.drop_first(),
            source_key,
            target,
        )
    }
}

proof fn lemma_fold_len(
    cache: Map<Seq<char>, Seq<char>>,
    parts: Seq<Seq<char>>,
    source_key: Seq<char>,
    target: Seq<char>,
)
    ensures
        fold_translated(cache, parts, source_key, target).len() == parts.len(),
    decreases parts.len(),
{
    if parts.len() == 0 {
    } else {
        lemma_fold_len(
            step_cache(cache, parts[0], source_key, target),
            parts.drop_first(),
            source_key,
            target,
        );
    }
}

proof fn lemma_fold_cache_snoc(
    cache: Map<Seq<char>, Seq<char>>,
    parts: Seq<Seq<char>>,
    x: Seq<char>,
    source_key: Seq<char>,
    target: Seq<char>,
)
    ensures
        fold_cache(cache, parts.push(x), source_key, target) == step_cache(
            fold_cache(cache, parts, source_key, target),
            x,
            source_key,
            target,
        ),
    decreases parts.len(),
{
    if parts.len() == 0 {
        assert(parts.push(x)[0] == x);
        assert(parts.push(x).drop_first() =~= Seq::<Seq<char>>::empty());
        let c1 = step_cache(cache, x, source_key, target);
        assert(fold_cache(cache, parts.push(x), source_key, target) == fold_cache(
            c1,
            parts.push(x).drop_first(),
            source_key,
            target,
        ));
        assert(fold_cache(cache, parts, source_key, target) == cache);
    } else {
        assert(parts.push(x)[0] == parts[0]);
        assert(parts.push(x).drop_first() =~= parts.drop_first().push(x));
        let c1 = step_cache(cache, parts[0], source_key, target);
        assert(fold_cache(cache, parts.push(x), source_key, target) == fold_cache(
            c1,
            parts.drop_first().push(x),
            source_key,
            target,
        ));
        lemma_fold_cache_snoc(c1, parts.drop_first(), x, source_key, target);
        assert(fold_cache(cache, parts, source_key, target) == fold_cache(
            c1,
            parts.drop_first(),
            source_key,
            target,
        ));
    }
}

proof fn lemma_fold_index(
    cache: Map<Seq<char>, Seq<char>>,
    parts: Seq<Seq<char>>,
    m: int,
    source_key: Seq<char>,
    target: Seq<char>,
)
    requires
        0 <= m < parts.len(),
    ensures
        fold_translated(cache, parts, source_key, target)[m] == step_translated(
            fold_cache(cache, parts.take(m), source_key, target),
            parts[m],
            source_key,
            target,
        ),
    decreases m,
{
    if m == 0 {
        assert(parts.take(0) =~= Seq::<Seq<char>>::empty());
    } else {
        let c1 = step_cache(cache, parts[0], source_key, target);
        lemma_fold_index(c1, parts.drop_first(), m - 1, source_key, target);
        let head = seq![step_translated(cache, parts[0], source_key, target)];
        let rest = fold_translated(c1, parts.drop_first(), source_key, target);
        lemma_fold_len(c1, parts.drop_first(), source_key, target);
        assert(fold_translated(cache, parts, source_key, target) == head + rest);
        assert((head + rest)[m] == rest[m - 1]);
        assert(parts.take(m)[0] == parts[0]);
        assert(parts.take(m).drop_first() =~= parts.drop_first().take(m - 1));
        assert(parts.drop_first()[m - 1] == parts[m]);
    }
}

/// How a page result relates to the text, the options and the cache as
/// they stood when the page was translated: the chunks are the chunking
/// of the page text, each chunk carries its index, its original text, its
/// translation under the evolving cache, and its offsets in the
/// space-joined original, and the page's translation is the space-joined
/// sequence of chunk translations.
pub open spec fn page_result_ok(
    r: PageTranslationResult,
    cache: Map<Seq<char>, Seq<char>>,
    page_text: Seq<char>,
    page_number: usize,
    source_key: Seq<char>,
    target: Seq<char>,
) -> bool {
    let parts = chunk_seq(page_text, DEFAULT_CHUNK_SIZE as int);
    let ts = fold_translated(cache, parts, source_key, target);
    &&& r.page_number == page_number
    &&& r.original@ == page_text
    &&& r.chunks@.len() == parts.len()
    &&& (forall|i: int|
        0 <= i < parts.len() ==> {
            let c = #[trigger] r.chunks@[i];
            &&& c.index == i
            &&& c.original@ == parts[i]
            &&& c.translated@ == ts[i]
            &&& c.start_offset == join_start(parts, i)
            &&& c.end_offset == join_start(parts, i) + parts[i].len()
        })
    &&& r.translated@ == space_join(ts)
}

/// The offset law for any translated page: the first chunk starts at
/// offset zero, every chunk ends exactly the length of its original text
/// after it starts, and every later chunk starts one character — the
/// join space — after its predecessor ends.
pub proof fn lemma_page_offsets(
    r: PageTranslationResult,
    cache: Map<Seq<char>, Seq<char>>,
    page_text: Seq<char>,
    page_number: usize,
    source_key: Seq<char>,
    target: Seq<char>,
)
    requires
        page_result_ok(r, cache, page_text, page_number, source_key, target),
    ensures
        r.chunks@.len() > 0 ==> r.chunks@[0].start_offset == 0,
        forall|i: int|
            0 <= i < r.chunks@.len() ==> (#[trigger] r.chunks@[i]).end_offset == r.chunks@[
                i
            ].start_offset + r.chunks@[i].original@.len(),
        forall|i: int|
            0 < i < r.chunks@.len() ==> (#[trigger] r.chunks@[i]).start_offset == r.chunks@[i
                - 1].end_offset + 1,
{
    let parts = chunk_seq(page_text, DEFAULT_CHUNK_SIZE as int);
    assert forall|i: int|
        0 < i < r.chunks@.len() implies (#[trigger] r.chunks@[i]).start_offset == r.chunks@[i
        - 1].end_offset + 1 by {
        crate::chunk::lemma_join_start_step(parts, i - 1);
    }
}

/// The page texts of a document, in page order.
pub open spec fn page_texts_of(pages: Seq<(usize, String)>) -> Seq<Seq<char>> {
    pages.map_values(|p: (usize, String)| p.1@)
}

/// The cache after the pages' texts have been translated page by page.
pub open spec fn doc_fold_cache(
    cache: Map<Seq<char>, Seq<char>>,
    texts: Seq<Seq<char>>,
    source_key: Seq<char>,
    target: Seq<char>,
) -> Map<Seq<char>, Seq<char>>
    decreases texts.len(),
{
    if texts.len() == 0 {
        cache
    } else {
        doc_fold_cache(
            fold_cache(cache, chunk_seq(texts[0], DEFAULT_CHUNK_SIZE as int), source_key, target),
            texts.drop_first(),
            source_key,
            target,
        )
    }
}

proof fn lemma_doc_fold_snoc(
    cache: Map<Seq<char>, Seq<char>>,
    texts: Seq<Seq<char>>,
    x: Seq<char>,
    source_key: Seq<char>,
    target: Seq<char>,
)
    ensures
        doc_fold_cache(cache, texts.push(x), source_key, target) == fold_cache(
            doc_fold_cache(cache, texts, source_key, target),
            chunk_seq(x, DEFAULT_CHUNK_SIZE as int),
            source_key,
            target,
        ),
    decreases texts.len(),
{
    if texts.len() == 0 {
        assert(texts.push(x)[0] == x);
        assert(texts.push(x).drop_first() =~= Seq::<Seq<char>>::empty());
        let c1 = fold_cache(cache, chunk_seq(x, DEFAULT_CHUNK_SIZE as int), source_key, target);
        assert(doc_fold_cache(cache, texts.push(x), source_key, target) == doc_fold_cache(
            c1,
            texts.push(x).drop_first(),
            source_key,
            target,
        ));
        assert(doc_fold_cache(cache, texts, source_key, target) == cache);
    } else {
        assert(texts.push(x)[0] == texts[0]);
        assert(texts.push(x).drop_first() =~= texts.drop_first().push(x));
        let c1 = fold_cache(
            cache,
            chunk_seq(texts[0], DEFAULT_CHUNK_SIZE as int),
            source_key,
            target,
        );
        assert(doc_fold_cache(cache, texts.push(x), source_key, target) == doc_fold_cache(
            c1,
            texts.drop_first().push(x),
            source_key,
            target,
        ));
        lemma_doc_fold_snoc(c1, texts.drop_first(), x, source_key, target);
        assert(doc_fold_cache(cache, texts, source_key, target) == doc_fold_cache(
            c1,
            texts.drop_first(),
            source_key,
            target,
        ));
    }
}

/// Relies on chrono's `Utc::now` and `DateTime::to_rfc3339` for the
/// document completion timestamp; the value depends on the clock, so
/// nothing is promised of it.
#[verifier::external_body]
fn now_rfc3339() -> String {
    chrono::Utc::now().to_rfc3339()
}

impl TranslationService {
    /// Translates one page: chunks the text, transforms each chunk through
    /// the cache in order, and records for every chunk its offsets in the
    /// space-joined original text. Offsets account for the single joining
    /// space between chunks: each chunk starts one character after its
    /// predecessor ends.
    pub fn translate_page(
        &mut self,
        page_text: &str,
        page_number: usize,
        options: &TranslationOptions,
    ) -> (r: PageTranslationResult)
        requires
            old(self).wf(),
        ensures
            final(self).wf(),
            page_result_ok(
                r,
                old(self).cache_map(),
                page_text@,
                page_number,
                options.source_key(),
                options.target_language@,
            ),
            final(self).cache_map() == fold_cache(
                old(self).cache_map(),
                chunk_seq(page_text@, DEFAULT_CHUNK_SIZE as int),
                options.source_key(),
                options.target_language@,
            ),
            final(self).calls() >= old(self).calls(),
    {
        let ghost cache0 = old(self).cache_map();
        let ghost sk = options.source_key();
        let ghost tg = options.target_language@;
        let n_total = page_text.unicode_len();
        let chunks = chunk_text(page_text, DEFAULT_CHUNK_SIZE);
        let ghost parts = chunks.deep_view();
        let ghost ts = fold_translated(cache0, parts, sk, tg);
        proof {
            lemma_fold_len(cache0, parts, sk, tg);
            crate::chunk::lemma_chunks_join(page_text@, DEFAULT_CHUNK_SIZE as int);
        }
        let mut out_chunks: Vec<TranslationChunk> = Vec::new();
        let mut translated_all = String::new();
        let mut offset: usize = 0;
        let mut idx: usize = 0;
        while idx < chunks.len()
            invariant
                old(self).wf(),
                self.wf(),
                idx <= chunks.len(),
                chunks.deep_view() == parts,
                parts == chunk_seq(page_text@, DEFAULT_CHUNK_SIZE as int),
                ts == fold_translated(cache0, parts, sk, tg),
                ts.len() == parts.len(),
                sk == options.source_key(),
                tg == options.target_language@,
                n_total == page_text@.len(),
                space_join(parts).len() <= n_total,
                self.cache_map() == fold_cache(cache0, parts.take(idx as int), sk, tg),
                self.calls() >= old(self).calls(),
                out_chunks@.len() == idx,
                forall|i: int|
                    0 <= i < idx ==> {
                        let c = #[trigger] out_chunks@[i];
                        &&& c.index == i
                        &&& c.original@ == parts[i]
                        &&& c.translated@ == ts[i]
                        &&& c.start_offset == join_start(parts, i)
                        &&& c.end_offset == join_start(parts, i) + parts[i].len()
                    },
                translated_all@ == space_join(ts.take(idx as int)),
                idx < parts.len() ==> offset == join_start(parts, idx as int),
            decreases chunks.len() - idx,
        {
            let chunk_len = chunks[idx].as_str().unicode_len();
            proof {
                crate::chunk::lemma_join_start_step(parts, idx as int);
                lemma_fold_index(cache0, parts, idx as int, sk, tg);
            }
            let tr = self.translate_text(chunks[idx].as_str(), options);
            proof {
                assert(parts.take(idx as int).push(parts[idx as int]) =~= parts.take(
                    idx as int + 1,
                ));
                lemma_fold_cache_snoc(cache0, parts.take(idx as int), parts[idx as int], sk, tg);
            }
            let start = offset;
            let end = offset + chunk_len;
            out_chunks.push(
                TranslationChunk {
                    index: idx,
                    original: chunks[idx].clone(),
                    translated: tr.translated.clone(),
                    start_offset: start,
                    end_offset: end,
                },
            );
            if idx > 0 {
                translated_all.append(" ");
                proof {
                    reveal_strlit(" ");
                }
            }
            translated_all.append(tr.translated.as_str());
            proof {
                let ghost tsp = ts.take(idx as int);
                assert(ts.take(idx as int + 1) =~= tsp.push(ts[idx as int]));
                crate::chunk::lemma_space_join_snoc(tsp, ts[idx as int]);
                if idx == 0 {
                    assert(translated_all@ =~= space_join(ts.take(idx as int + 1)));
                } else {
                    assert(translated_all@ =~= space_join(tsp) + seq![' '] + ts[idx as int]);
                }
            }
            if idx + 1 < chunks.len() {
                offset = end + 1;
            }
            idx = idx + 1;
        }
        proof {
            assert(parts.take(parts.len() as int) =~= parts);
            assert(ts.take(ts.len() as int) =~= ts);
        }
        PageTranslationResult {
            page_number,
            original: String::from_str(page_text),
            translated: translated_all,
            chunks: out_chunks,
        }
    }

    /// Translates a document page by page, in order, through the shared
    /// cache, and stamps the result with the resolved language pair and a
    /// completion time. Zero pages are not an error: the result then
    /// simply holds no page results.
    pub fn translate_document(
        &mut self,
        pages: Vec<(usize, String)>,
        options: &TranslationOptions,
    ) -> (r: DocumentTranslationResult)
        requires
            old(self).wf(),
        ensures
            final(self).wf(),
            r.total_pages == pages@.len(),
            r.pages@.len() == pages@.len(),
            r.source_language@ == options.source_label(),
            r.target_language@ == options.target_language@,
            forall|i: int|
                0 <= i < pages@.len() ==> page_result_ok(
                    #[trigger] r.pages@[i],
                    doc_fold_cache(
                        old(self).cache_map(),
                        page_texts_of(pages@).take(i),
                        options.source_key(),
                        options.target_language@,
                    ),
                    pages@[i].1@,
                    pages@[i].0,
                    options.source_key(),
                    options.target_language@,
                ),
            final(self).cache_map() == doc_fold_cache(
                old(self).cache_map(),
                page_texts_of(pages@),
                options.source_key(),
                options.target_language@,
            ),
    {
        let ghost cache0 = old(self).cache_map();
        let ghost sk = options.source_key();
        let ghost tg = options.target_language@;
        let ghost texts = page_texts_of(pages@);
        let mut page_results: Vec<PageTranslationResult> = Vec::new();
        let mut p: usize = 0;
        while p < pages.len()
            invariant
                old(self).wf(),
                self.wf(),
                p <= pages.len(),
                texts == page_texts_of(pages@),
                texts.len() == pages@.len(),
                sk == options.source_key(),
                tg == options.target_language@,
                self.cache_map() == doc_fold_cache(cache0, texts.take(p as int), sk, tg),
                page_results@.len() == p,
                forall|i: int|
                    0 <= i < p ==> page_result_ok(
                        #[trigger] page_results@[i],
                        doc_fold_cache(cache0, texts.take(i), sk, tg),
                        pages@[i].1@,
                        pages@[i].0,
                        sk,
                        tg,
                    ),
            decreases pages.len() - p,
        {
            let page_number = pages[p].0;
            let pr = self.translate_page(pages[p].1.as_str(), page_number, options);
            proof {
                assert(texts[p as int] == pages@[p as int].1@);
                assert(texts.take(p as int).push(texts[p as int]) =~= texts.take(p as int + 1));
                lemma_doc_fold_snoc(cache0, texts.take(p as int), texts[p as int], sk, tg);
            }
            page_results.push(pr);
            p = p + 1;
        }
        proof {
            assert(texts.take(texts.len() as int) =~= texts);
        }
        let total = page_results.len();
        DocumentTranslationResult {
            total_pages: total,
            pages: page_results,
            source_language: match &options.source_language {
                Some(s) => s.clone(),
                None => String::from_str("en"),
            },
            target_language: options.target_language.clone(),
            completed_at: now_rfc3339(),
        }
    }
}

/// A character in the main CJK Unified Ideographs range, as the detector
/// tests it (both bounds exclusive).
pub open spec fn is_cjk_char(c: char) -> bool {
    0x4E00 < (c as u32) && (c as u32) < 0x9FFF
}

/// A diacritic or ligature the detector attributes to French.
pub open spec fn is_french_char(c: char) -> bool {
    c == 'à' || c == 'â' || c == 'ä' || c == 'è' || c == 'é' || c == 'ê' || c == 'ë' || c == 'î'
        || c == 'ï' || c == 'ô' || c == 'ù' || c == 'û' || c == 'ü' || c == 'ÿ' || c == 'æ' || c
        == 'œ' || c == 'ç'
}

/// A character the detector attributes to German.
pub open spec fn is_german_char(c: char) -> bool {
    c == 'ä' || c == 'ö' || c == 'ü' || c == 'ß'
}

/// A character or punctuation mark the detector attributes to Spanish.
pub open spec fn is_spanish_char(c: char) -> bool {
    c == 'á' || c == 'é' || c == 'í' || c == 'ó' || c == 'ú' || c == 'ñ' || c == 'ü' || c == '¿'
        || c == '¡'
}

/// The language the heuristic detector reports for `s`: the first matching
/// class in the fixed priority order CJK, French, German, Spanish, with
/// English as the default.
pub open spec fn detected_language(s: Seq<char>) -> Seq<char> {
    if exists|i: int| 0 <= i < s.len() && is_cjk_char(#[trigger] s[i]) {
        "zh"@
    } else if exists|i: int| 0 <= i < s.len() && is_french_char(#[trigger] s[i]) {
        "fr"@
    } else if exists|i: int| 0 <= i < s.len() && is_german_char(#[trigger] s[i]) {
        "de"@
    } else if exists|i: int| 0 <= i < s.len() && is_spanish_char(#[trigger] s[i]) {
        "es"@
    } else {
        "en"@
    }
}

fn char_is_cjk(c: char) -> (r: bool)
    ensures
        r == is_cjk_char(c),
{
    let u = c as u32;
    0x4E00 < u && u < 0x9FFF
}

fn char_is_french(c: char) -> (r: bool)
    ensures
        r == is_french_char(c),
{
    c == 'à' || c == 'â' || c == 'ä' || c == 'è' || c == 'é' || c == 'ê' || c == 'ë' || c == 'î'
        || c == 'ï' || c == 'ô' || c == 'ù' || c == 'û' || c == 'ü' || c == 'ÿ' || c == 'æ' || c
        == 'œ' || c == 'ç'
}

fn char_is_german(c: char) -> (r: bool)
    ensures
        r == is_german_char(c),
{
    c == 'ä' || c == 'ö' || c == 'ü' || c == 'ß'
}

fn char_is_spanish(c: char) -> (r: bool)
    ensures
        r == is_spanish_char(c),
{
    c == 'á' || c == 'é' || c == 'í' || c == 'ó' || c == 'ú' || c == 'ñ' || c == 'ü' || c == '¿'
        || c == '¡'
}

impl TranslationService {
    /// Guesses the language of a text from the character classes it
    /// contains, in the fixed priority order CJK, French, German, Spanish,
    /// falling back to English.
    pub fn detect_language(&self, text: &str) -> (r: String)
        ensures
            r@ == detected_language(text@),
    {
        let n = text.unicode_len();
        let mut has_cjk = false;
        let mut has_french = false;
        let mut has_german = false;
        let mut has_spanish = false;
        let mut i: usize = 0;
        while i < n
            invariant
                n == text@.len(),
                i <= n,
                has_cjk == exists|j: int| 0 <= j < i && is_cjk_char(#[trigger] text@[j]),
                has_french == exists|j: int| 0 <= j < i && is_french_char(#[trigger] text@[j]),
                has_german == exists|j: int| 0 <= j < i && is_german_char(#[trigger] text@[j]),
                has_spanish == exists|j: int| 0 <= j < i && is_spanish_char(#[trigger] text@[j]),
            decreases n - i,
        {
            let c = text.get_char(i);
            if char_is_cjk(c) {
                has_cjk = true;
            }
            if char_is_french(c) {
                has_french = true;
            }
            if char_is_german(c) {
                has_german = true;
            }
            if char_is_spanish(c) {
                has_spanish = true;
            }
            i = i + 1;
        }
        if has_cjk {
            String::from_str("zh")
        } else if has_french {
            String::from_str("fr")
        } else if has_german {
            String::from_str("de")
        } else if has_spanish {
            String::from_str("es")
        } else {
            String::from_str("en")
        }
    }
}

impl Default for TranslationService {
    /// A fresh service with an empty cache.
    fn default() -> (s: Self)
        ensures
            s.wf(),
            s.cache_map() == Map::<Seq<char>, Seq<char>>::empty(),
            s.calls() == 0,
    {
        Self::new()
    }
}

} // verus!

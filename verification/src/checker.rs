//! The memoizing front end for an external formula checker: classification
//! of the checker's output and the bounded in-memory result cache.

use vstd::prelude::*;
use vstd::utf8::decode_utf8;
use vstd::utf8::valid_utf8;

verus! {

/// Result of checking a formula.
#[derive(Debug, PartialEq, Clone)]
pub enum TexResult {
    Valid(String),
    UnknownFunction(String),
    LexingError,
    SyntaxError,
    UnknownError,
}

impl TexResult {
    /// An equal copy. (The derived `clone` tells the verifier nothing, so
    /// verified callers copy through this method instead.)
    pub fn duplicate(&self) -> (r: TexResult)
        ensures
            r == *self,
    {
        match self {
            TexResult::Valid(t) => TexResult::Valid(t.clone()),
            TexResult::UnknownFunction(t) => TexResult::UnknownFunction(t.clone()),
            TexResult::LexingError => TexResult::LexingError,
            TexResult::SyntaxError => TexResult::SyntaxError,
            TexResult::UnknownError => TexResult::UnknownError,
        }
    }
}

/// A condition the checker front end cannot recover from: the external
/// checker process could not be launched, or its output was not valid UTF-8.
#[derive(Debug, PartialEq, Eq, Clone, Copy)]
pub enum CheckerFailure {
    Launch,
    CorruptOutput,
}

/// Checks if a string is a valid LaTeX formula.
pub trait TexChecker {
    fn check(&self, source: &str) -> TexResult;
}

/// Whether the raw checker output can be classified at all: empty output
/// needs no payload, any other output must carry a valid UTF-8 payload
/// after its first byte.
pub open spec fn classifiable(bytes: Seq<u8>) -> bool {
    bytes.len() == 0 || valid_utf8(bytes.drop_first())
}

/// Whether `r` is the classification that the checker-output protocol
/// assigns to the raw output `bytes`: the first byte selects the variant,
/// the remaining bytes, UTF-8 decoded, are its payload; empty output and
/// unknown first bytes fall to `UnknownError`.
pub open spec fn classifies(bytes: Seq<u8>, r: TexResult) -> bool {
    if bytes.len() == 0 {
        r == TexResult::UnknownError
    } else {
        let payload = decode_utf8(bytes.drop_first());
        if bytes[0] as char == '+' {
            r matches TexResult::Valid(t) && t@ == payload
        } else if bytes[0] as char == 'F' {
            r matches TexResult::UnknownFunction(t) && t@ == payload
        } else if bytes[0] as char == 'S' {
            r == TexResult::SyntaxError
        } else if bytes[0] as char == 'E' {
            r == TexResult::LexingError
        } else {
            r == TexResult::UnknownError
        }
    }
}

/// Relies on String::from_utf8: returns the decoded string exactly when the
/// bytes are valid UTF-8, and nothing otherwise.
#[verifier::external_body]
fn decode_bytes(bytes: Vec<u8>) -> (r: Option<String>)
    ensures
        r is Some <==> valid_utf8(bytes@),
        r matches Some(s) ==> s@ == decode_utf8(bytes@),
{
    match String::from_utf8(bytes) {
        Ok(s) => Some(s),
        Err(_) => None,
    }
}

/// Classify the raw standard output of one checker invocation. The only
/// failure is a payload that is not valid UTF-8: corrupted external output,
/// a fatal condition, never a classification.
pub fn classify_output(stdout: &[u8]) -> (r: Result<TexResult, CheckerFailure>)
    ensures
        r is Ok <==> classifiable(stdout@),
        r matches Ok(t) ==> classifies(stdout@, t),
        r matches Err(e) ==> e == CheckerFailure::CorruptOutput,
{
    if stdout.len() == 0 {
        return Ok(TexResult::UnknownError);
    }
    let mut rest: Vec<u8> = Vec::new();
    let mut i: usize = 1;
    assert(rest@ =~= stdout@.subrange(1, 1));
    while i < stdout.len()
        invariant
            1 <= i <= stdout@.len(),
            rest@ == stdout@.subrange(1, i as int),
        decreases stdout@.len() - i,
    {
        rest.push(stdout[i]);
        assert(rest@ =~= stdout@.subrange(1, i + 1));
        i = i + 1;
    }
    proof {
        assert(rest@ =~= stdout@.drop_first());
    }
    match decode_bytes(rest) {
        None => Err(CheckerFailure::CorruptOutput),
        Some(text) => {
            let first = stdout[0];
            if first as char == '+' {
                Ok(TexResult::Valid(text))
            } else if first as char == 'F' {
                Ok(TexResult::UnknownFunction(text))
            } else if first as char == 'S' {
                Ok(TexResult::SyntaxError)
            } else if first as char == 'E' {
                Ok(TexResult::LexingError)
            } else {
                Ok(TexResult::UnknownError)
            }
        },
    }
}

/// The specification-level picture of a cache: its key/result pairs with
/// the keys as character sequences, in insertion order.
pub open spec fn entries_of(cache: Seq<(String, TexResult)>) -> Seq<(Seq<char>, TexResult)> {
    cache.map_values(|p: (String, TexResult)| (p.0@, p.1))
}

/// At most one entry per distinct source string.
pub open spec fn distinct_keys(es: Seq<(Seq<char>, TexResult)>) -> bool {
    forall|i: int, j: int| 0 <= i < j < es.len() ==> es[i].0 != es[j].0
}

/// The result stored for `key` in the entries from position `i` on.
pub open spec fn spec_lookup_from(
    es: Seq<(Seq<char>, TexResult)>,
    key: Seq<char>,
    i: int,
) -> Option<TexResult>
    decreases es.len() - i,
{
    if i < 0 || i >= es.len() {
        None
    } else if es[i].0 == key {
        Some(es[i].1)
    } else {
        spec_lookup_from(es, key, i + 1)
    }
}

/// The result stored for `key`, if any.
pub open spec fn spec_lookup(es: Seq<(Seq<char>, TexResult)>, key: Seq<char>) -> Option<
    TexResult,
> {
    spec_lookup_from(es, key, 0)
}

/// The entries that survive one eviction pass over the first `i` entries of
/// `es`: every tenth position, starting with the very first, is dropped.
pub open spec fn evict_prefix(
    es: Seq<(Seq<char>, TexResult)>,
    i: int,
) -> Seq<(Seq<char>, TexResult)>
    decreases i,
{
    if i <= 0 {
        Seq::empty()
    } else if (i - 1) % 10 == 0 {
        evict_prefix(es, i - 1)
    } else {
        evict_prefix(es, i - 1).push(es[i - 1])
    }
}

/// What one insertion leaves in the cache: the new entry appended and, if
/// the cache has then outgrown `max`, one eviction pass over the older
/// entries, the just-inserted entry exempt.
pub open spec fn spec_insert(
    es: Seq<(Seq<char>, TexResult)>,
    key: Seq<char>,
    val: TexResult,
    max: int,
) -> Seq<(Seq<char>, TexResult)> {
    if es.len() + 1 > max {
        evict_prefix(es, es.len() as int).push((key, val))
    } else {
        es.push((key, val))
    }
}

/// No entry from position `i` on carries `key` exactly when the lookup from
/// `i` finds nothing.
pub proof fn lemma_lookup_none_iff(es: Seq<(Seq<char>, TexResult)>, key: Seq<char>, i: int)
    requires
        0 <= i,
    ensures
        spec_lookup_from(es, key, i) is None <==> (forall|j: int|
            i <= j < es.len() ==> es[j].0 != key),
    decreases es.len() - i,
{
    if i < es.len() {
        lemma_lookup_none_iff(es, key, i + 1);
    }
}

/// Looking up a key that only the appended last entry carries finds that
/// entry.
pub proof fn lemma_lookup_push(
    es: Seq<(Seq<char>, TexResult)>,
    key: Seq<char>,
    val: TexResult,
    i: int,
)
    requires
        0 <= i <= es.len(),
        forall|j: int| 0 <= j < es.len() ==> es[j].0 != key,
    ensures
        spec_lookup_from(es.push((key, val)), key, i) == Some(val),
    decreases es.len() - i,
{
    if i < es.len() {
        lemma_lookup_push(es, key, val, i + 1);
    }
}

/// An eviction pass keeps only entries of the original sequence, keeps
/// their keys distinct, and always drops the very first entry.
pub proof fn lemma_evict_prefix_props(es: Seq<(Seq<char>, TexResult)>, i: int)
    requires
        distinct_keys(es),
        i <= es.len(),
    ensures
        distinct_keys(evict_prefix(es, i)),
        forall|a: int|
            #![trigger evict_prefix(es, i)[a]]
            0 <= a < evict_prefix(es, i).len() ==> exists|j: int|
                0 <= j < i && evict_prefix(es, i)[a] == #[trigger] es[j],
        evict_prefix(es, i).len() <= if i <= 0 { 0int } else { i - 1 },
    decreases i,
{
    if i > 0 {
        lemma_evict_prefix_props(es, i - 1);
        if (i - 1) % 10 != 0 {
            let prev = evict_prefix(es, i - 1);
            let cur = evict_prefix(es, i);
            assert forall|a: int, b: int| 0 <= a < b < cur.len() implies cur[a].0 != cur[b].0 by {
                if b < prev.len() {
                } else {
                    let j = choose|j: int| 0 <= j < i - 1 && prev[a] == es[j];
                    assert(cur[b] == es[i - 1]);
                    assert(es[j].0 != es[i - 1].0);
                }
            }
        }
    }
}

/// Exactly every tenth of the first `i` entries is dropped by an eviction
/// pass: of `i` entries, `(i - 1) / 10 + 1` go and the rest stay.
pub proof fn lemma_evict_prefix_len(es: Seq<(Seq<char>, TexResult)>, i: int)
    requires
        0 <= i,
    ensures
        evict_prefix(es, i).len() == if i == 0 {
            0int
        } else {
            i - 1 - (i - 1) / 10
        },
    decreases i,
{
    if i > 0 {
        lemma_evict_prefix_len(es, i - 1);
    }
}

/// Checks if a string is a valid LaTeX formula, caching past inputs.
///
/// The external process itself stays outside this library: a caller asks
/// `lookup` first and, on a miss, runs the checker and hands its raw output
/// to `check_output`, which classifies and records it. Callers that share
/// one instance across threads must hold one exclusive lock around that
/// whole lookup-or-populate sequence, so that each distinct miss invokes
/// the external checker at most once.
#[derive(Debug)]
pub struct CachedTexChecker {
    pub texvccheck_path: String,
    pub max_size: usize,
    pub cache: Vec<(String, TexResult)>,
}

impl CachedTexChecker {
    /// The cached entries, in insertion order.
    pub open spec fn entries(self) -> Seq<(Seq<char>, TexResult)> {
        entries_of(self.cache@)
    }

    /// The current checker path, as a character sequence.
    pub open spec fn spec_path(self) -> Seq<char> {
        self.texvccheck_path@
    }

    /// Well-formed: one entry per distinct source string, and never more
    /// entries than the configured size plus the one pending insertion.
    pub open spec fn wf(self) -> bool {
        &&& distinct_keys(self.entries())
        &&& self.entries().len() <= self.max_size + 1
    }

    /// Create a checker front end for the external checker at `path` with
    /// the capacity hint `size`. No I/O happens here.
    pub fn new(path: &str, size: usize) -> (r: CachedTexChecker)
        ensures
            r.wf(),
            r.spec_path() == path@,
            r.max_size == size,
            r.entries() =~= Seq::<(Seq<char>, TexResult)>::empty(),
    {
        let r = CachedTexChecker {
            texvccheck_path: path.to_owned(),
            max_size: size,
            cache: Vec::new(),
        };
        proof {
            assert(r.entries() =~= Seq::<(Seq<char>, TexResult)>::empty());
        }
        r
    }

    /// Replace the checker path. The cache is left untouched: entries are
    /// keyed by formula text alone, not by checker identity.
    pub fn set_path(&mut self, path: &str)
        ensures
            final(self).spec_path() == path@,
            final(self).cache == old(self).cache,
            final(self).max_size == old(self).max_size,
    {
        self.texvccheck_path = path.to_owned();
    }

    /// The current checker path.
    pub fn get_path(&self) -> (r: &String)
        ensures
            r@ == self.spec_path(),
    {
        &self.texvccheck_path
    }

    /// How many results the cache holds.
    pub fn cache_len(&self) -> (n: usize)
        ensures
            n == self.entries().len(),
    {
        self.cache.len()
    }

    /// The cached result for `source`, if one is stored. No external
    /// process is involved: a stored result is returned as it was cached.
    pub fn lookup(&self, source: &str) -> (r: Option<TexResult>)
        ensures
            r == spec_lookup(self.entries(), source@),
    {
        let key: String = source.to_owned();
        let n = self.cache.len();
        let mut i: usize = 0;
        while i < n
            invariant
                n == self.cache@.len(),
                i <= n,
                key@ == source@,
                spec_lookup(self.entries(), source@) == spec_lookup_from(
                    self.entries(),
                    source@,
                    i as int,
                ),
            decreases n - i,
        {
            let p = &self.cache[i];
            if p.0.eq(&key) {
                return Some(p.1.duplicate());
            }
            i = i + 1;
        }
        None
    }

    /// Record the result for a source that missed the cache: the entry is
    /// appended and, if the cache has then outgrown `max_size`, one
    /// eviction pass drops every tenth of the older entries.
    pub fn insert(&mut self, source: &str, result: TexResult)
        requires
            old(self).wf(),
            spec_lookup(old(self).entries(), source@) is None,
        ensures
            final(self).wf(),
            final(self).entries() == spec_insert(
                old(self).entries(),
                source@,
                result,
                old(self).max_size as int,
            ),
            spec_lookup(final(self).entries(), source@) == Some(result),
            final(self).texvccheck_path == old(self).texvccheck_path,
            final(self).max_size == old(self).max_size,
    {
        let ghost oe = old(self).entries();
        let key: String = source.to_owned();
        if self.cache.len() >= self.max_size {
            let n = self.cache.len();
            let mut kept: Vec<(String, TexResult)> = Vec::new();
            let mut i: usize = 0;
            assert(entries_of(kept@) =~= evict_prefix(oe, 0));
            while i < n
                invariant
                    n == self.cache@.len(),
                    i <= n,
                    self.cache == old(self).cache,
                    oe == entries_of(self.cache@),
                    entries_of(kept@) == evict_prefix(oe, i as int),
                decreases n - i,
            {
                if i % 10 != 0 {
                    let p = &self.cache[i];
                    kept.push((p.0.clone(), p.1.duplicate()));
                    proof {
                        assert(entries_of(kept@) =~= evict_prefix(oe, i + 1));
                    }
                }
                i = i + 1;
            }
            kept.push((key, result));
            proof {
                assert(entries_of(kept@) =~= evict_prefix(oe, oe.len() as int).push(
                    (source@, result),
                ));
            }
            self.cache = kept;
        } else {
            self.cache.push((key, result));
            proof {
                assert(entries_of(self.cache@) =~= oe.push((source@, result)));
            }
        }
        proof {
            lemma_lookup_none_iff(oe, source@, 0);
            lemma_insert_wf(oe, source@, result, old(self).max_size as int);
            lemma_recorded_result_found(oe, source@, result, old(self).max_size as int);
        }
    }

    /// Classify the raw output of one checker invocation for a source that
    /// missed the cache and, on success, record the result. On a fatal
    /// condition nothing is cached and the checker is unchanged.
    pub fn check_output(&mut self, source: &str, stdout: &[u8]) -> (r: Result<
        TexResult,
        CheckerFailure,
    >)
        requires
            old(self).wf(),
            spec_lookup(old(self).entries(), source@) is None,
        ensures
            r is Ok <==> classifiable(stdout@),
            r matches Ok(t) ==> {
                &&& classifies(stdout@, t)
                &&& final(self).wf()
                &&& final(self).entries() == spec_insert(
                    old(self).entries(),
                    source@,
                    t,
                    old(self).max_size as int,
                )
                &&& spec_lookup(final(self).entries(), source@) == Some(t)
            },
            r matches Err(e) ==> e == CheckerFailure::CorruptOutput && final(self).cache == old(
                self,
            ).cache,
            final(self).texvccheck_path == old(self).texvccheck_path,
            final(self).max_size == old(self).max_size,
    {
        match classify_output(stdout) {
            Err(e) => Err(e),
            Ok(result) => {
                let ret = result.duplicate();
                self.insert(source, result);
                Ok(ret)
            },
        }
    }
}

/// One insertion keeps the cache well-formed: keys stay distinct, and the
/// size stays within the configured size plus the one pending insertion.
pub proof fn lemma_insert_wf(
    es: Seq<(Seq<char>, TexResult)>,
    key: Seq<char>,
    val: TexResult,
    max: int,
)
    requires
        distinct_keys(es),
        es.len() <= max + 1,
        max >= 0,
        spec_lookup(es, key) is None,
    ensures
        distinct_keys(spec_insert(es, key, val, max)),
        spec_insert(es, key, val, max).len() <= max + 1,
{
    lemma_lookup_none_iff(es, key, 0);
    let n = es.len() as int;
    if n + 1 > max {
        lemma_evict_prefix_props(es, n);
        let kept = evict_prefix(es, n);
        let ne = kept.push((key, val));
        assert forall|a: int, b: int| 0 <= a < b < ne.len() implies ne[a].0 != ne[b].0 by {
            if b < kept.len() {
            } else {
                let j = choose|j: int| 0 <= j < n && kept[a] == es[j];
                assert(es[j].0 != key);
            }
        }
    } else {
        let ne = es.push((key, val));
        assert forall|a: int, b: int| 0 <= a < b < ne.len() implies ne[a].0 != ne[b].0 by {
            if b < es.len() {
            } else {
                assert(es[a].0 != key);
            }
        }
    }
}

/// Law: once a result for a source is recorded, looking that source up
/// finds exactly that result. A second check of the same source is thus a
/// cache hit: it returns an equal result, and the external process is not
/// invoked again.
pub proof fn lemma_recorded_result_found(
    es: Seq<(Seq<char>, TexResult)>,
    key: Seq<char>,
    val: TexResult,
    max: int,
)
    requires
        distinct_keys(es),
        spec_lookup(es, key) is None,
    ensures
        spec_lookup(spec_insert(es, key, val, max), key) == Some(val),
{
    lemma_lookup_none_iff(es, key, 0);
    let n = es.len() as int;
    if n + 1 > max {
        lemma_evict_prefix_props(es, n);
        let kept = evict_prefix(es, n);
        assert forall|j: int| 0 <= j < kept.len() implies kept[j].0 != key by {
            let w = choose|w: int| 0 <= w < n && kept[j] == es[w];
            assert(es[w].0 != key);
        }
        lemma_lookup_push(kept, key, val, 0);
    } else {
        lemma_lookup_push(es, key, val, 0);
    }
}

/// Law: after one insertion the cache never holds more than the configured
/// size plus the one pending insertion, and an eviction pass, when it runs
/// over `n` older entries, drops exactly `(n - 1) / 10 + 1` of them: a
/// one-in-ten rate.
pub proof fn lemma_eviction_bound(
    es: Seq<(Seq<char>, TexResult)>,
    key: Seq<char>,
    val: TexResult,
    max: int,
)
    requires
        distinct_keys(es),
        es.len() <= max + 1,
        max >= 0,
        spec_lookup(es, key) is None,
    ensures
        spec_insert(es, key, val, max).len() <= max + 1,
        es.len() + 1 > max && es.len() >= 1 ==> spec_insert(es, key, val, max).len() == es.len()
            - ((es.len() - 1) / 10 + 1) + 1,
        es.len() + 1 <= max ==> spec_insert(es, key, val, max).len() == es.len() + 1,
{
    lemma_insert_wf(es, key, val, max);
    lemma_evict_prefix_len(es, es.len() as int);
}

/// Law: replacing the checker path leaves every cached result in place: a
/// lookup after the change finds exactly what it found before.
pub proof fn lemma_path_change_keeps_cache(
    before: CachedTexChecker,
    after: CachedTexChecker,
    key: Seq<char>,
)
    requires
        after.cache == before.cache,
    ensures
        spec_lookup(after.entries(), key) == spec_lookup(before.entries(), key),
{
}

} // verus!

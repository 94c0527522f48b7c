//! Pruning noise frames and querying locations.
//!
//! A frame is noise when it has no source location, when its function
//! name carries one of a caller-supplied set of marker substrings
//! (runtime-startup and C-library internals by default), or when its
//! location path is empty, is the start-of-thread marker `_start`, or
//! carries a source-tree marker substring. Pruning keeps the order of
//! the surviving frames and is idempotent.

use vstd::prelude::*;
use vstd::string::StringExecFns;

use crate::chars::chars_to_string;
use crate::chars::str_to_chars;
use crate::types::entries_view;
use crate::types::Backtrace;
use crate::types::Entry;
use crate::types::EntryView;

verus! {

/// `needle` occurs contiguously somewhere in `hay`.
pub open spec fn contains_sub(hay: Seq<char>, needle: Seq<char>) -> bool {
    exists|k: int|
        0 <= k && k + needle.len() <= hay.len() && #[trigger] hay.subrange(k, k + needle.len())
            == needle
}

/// `prefix` is a prefix of `hay`.
pub open spec fn is_prefix(hay: Seq<char>, prefix: Seq<char>) -> bool {
    prefix.len() <= hay.len() && hay.subrange(0, prefix.len() as int) == prefix
}

/// `hay` carries at least one of the `needles`.
pub open spec fn contains_any(hay: Seq<char>, needles: Seq<Seq<char>>) -> bool {
    exists|j: int| 0 <= j < needles.len() && contains_sub(hay, #[trigger] needles[j])
}

/// Ghost image of a sequence of strings.
pub open spec fn strings_view(v: Seq<String>) -> Seq<Seq<char>> {
    Seq::new(v.len(), |i: int| v[i]@)
}

/// Does `needle` stand at position `k` of `h`?
fn match_at(h: &[char], needle: &[char], k: usize) -> (r: bool)
    requires
        k + needle@.len() <= h@.len(),
    ensures
        r == (h@.subrange(k as int, k + needle@.len()) == needle@),
{
    let hn = h.len();
    let m = needle.len();
    let mut j: usize = 0;
    while j < m
        invariant
            j <= m == needle@.len(),
            k + m <= hn == h@.len(),
            forall|t: int| 0 <= t < j ==> h@[k + t] == needle@[t],
        decreases m - j,
    {
        if h[k + j] != needle[j] {
            proof {
                assert(h@.subrange(k as int, k + needle@.len())[j as int] != needle@[j as int]);
            }
            return false;
        }
        j = j + 1;
    }
    proof {
        assert(h@.subrange(k as int, k + needle@.len()) =~= needle@);
    }
    true
}

/// Does `needle` occur anywhere in `hay`?
pub fn str_contains_sub(hay: &str, needle: &str) -> (r: bool)
    ensures
        r == contains_sub(hay@, needle@),
{
    let hv = str_to_chars(hay);
    let nv = str_to_chars(needle);
    let hn = hv.len();
    let nn = nv.len();
    if nn > hn {
        return false;
    }
    if nn == 0 {
        proof {
            assert(hay@.subrange(0, 0 + needle@.len() as int) =~= needle@);
        }
        return true;
    }
    let mut k: usize = 0;
    while k <= hn - nn
        invariant
            0 < nn <= hn,
            hn == hay@.len(),
            nn == needle@.len(),
            hv@ == hay@,
            nv@ == needle@,
            k <= hn - nn + 1,
            forall|t: int|
                0 <= t < k ==> #[trigger] hay@.subrange(t, t + needle@.len()) != needle@,
        decreases hn - nn + 1 - k,
    {
        if match_at(hv.as_slice(), nv.as_slice(), k) {
            return true;
        }
        k = k + 1;
    }
    false
}

/// Does `hay` start with `prefix`?
pub fn str_starts_with(hay: &str, prefix: &str) -> (r: bool)
    ensures
        r == is_prefix(hay@, prefix@),
{
    let hv = str_to_chars(hay);
    let nv = str_to_chars(prefix);
    if nv.len() > hv.len() {
        return false;
    }
    match_at(hv.as_slice(), nv.as_slice(), 0)
}

/// Does `hay` carry one of the `needles`?
fn str_contains_any(hay: &str, needles: &Vec<String>) -> (r: bool)
    ensures
        r == contains_any(hay@, strings_view(needles@)),
{
    let mut j: usize = 0;
    while j < needles.len()
        invariant
            j <= needles@.len(),
            forall|t: int| 0 <= t < j ==> !contains_sub(hay@, #[trigger] strings_view(needles@)[t]),
        decreases needles@.len() - j,
    {
        if str_contains_sub(hay, needles[j].as_str()) {
            proof {
                assert(strings_view(needles@)[j as int] == needles@[j as int]@);
            }
            return true;
        }
        proof {
            assert(strings_view(needles@)[j as int] == needles@[j as int]@);
        }
        j = j + 1;
    }
    false
}

/// A noise frame: no location, a marked function name, or a marked,
/// empty or start-of-thread location path.
pub open spec fn is_noise(
    e: EntryView,
    noise_functions: Seq<Seq<char>>,
    noise_paths: Seq<Seq<char>>,
) -> bool {
    match e.location {
        None => true,
        Some(l) => contains_any(e.function, noise_functions) || l.path == "_start"@
            || l.path.len() == 0 || contains_any(l.path, noise_paths),
    }
}

/// The entries that survive pruning, in their order.
pub open spec fn spec_prune(
    s: Seq<EntryView>,
    noise_functions: Seq<Seq<char>>,
    noise_paths: Seq<Seq<char>>,
) -> Seq<EntryView> {
    s.filter(|e: EntryView| !is_noise(e, noise_functions, noise_paths))
}

/// Decide [`is_noise`].
fn entry_is_noise(e: &Entry, noise_functions: &Vec<String>, noise_paths: &Vec<String>) -> (r: bool)
    ensures
        r == is_noise(e@, strings_view(noise_functions@), strings_view(noise_paths@)),
{
    match &e.location {
        None => true,
        Some(l) => {
            if str_contains_any(e.function.as_str(), noise_functions) {
                true
            } else if str_eq(l.path.as_str(), "_start") {
                true
            } else if l.path.as_str().is_empty() {
                true
            } else {
                str_contains_any(l.path.as_str(), noise_paths)
            }
        },
    }
}

/// A copy of the string, character for character.
fn clone_string(s: &String) -> (r: String)
    ensures
        r@ == s@,
{
    let v = str_to_chars(s.as_str());
    let r = chars_to_string(v.as_slice(), 0, v.len());
    proof {
        assert(v@.subrange(0, v@.len() as int) =~= v@);
    }
    r
}

/// A copy of the entry, field for field.
fn clone_entry(e: &Entry) -> (r: Entry)
    ensures
        r@ == e@,
{
    let location = match &e.location {
        Some(l) => Some(
            crate::types::Location::new(clone_string(&l.path), l.line, l.column),
        ),
        None => None,
    };
    Entry::new(clone_string(&e.function), location)
}

/// Are the two strings the same text?
pub fn str_eq(a: &str, b: &str) -> (r: bool)
    ensures
        r == (a@ == b@),
{
    let av = str_to_chars(a);
    let bv = str_to_chars(b);
    if av.len() != bv.len() {
        return false;
    }
    let r = match_at(av.as_slice(), bv.as_slice(), 0);
    proof {
        assert(a@.subrange(0, b@.len() as int) =~= a@);
    }
    r
}

/// The default marker substrings for noise function names: C-library
/// entry and thread-start symbols.
pub open spec fn default_noise_functions_view() -> Seq<Seq<char>> {
    seq!["__libc"@, "start_thread"@, "__GI___clone3"@]
}

/// Build [`default_noise_functions_view`].
pub fn default_noise_functions() -> (r: Vec<String>)
    ensures
        strings_view(r@) == default_noise_functions_view(),
{
    let mut v: Vec<String> = Vec::new();
    v.push(String::from_str("__libc"));
    v.push(String::from_str("start_thread"));
    v.push(String::from_str("__GI___clone3"));
    proof {
        assert(strings_view(v@) =~= default_noise_functions_view());
    }
    v
}

/// The default marker substrings for noise location paths: compiler
/// and C-library source trees.
pub open spec fn default_noise_paths_view() -> Seq<Seq<char>> {
    seq!["/rustc/"@, "/sysdeps/"@]
}

/// Build [`default_noise_paths_view`].
pub fn default_noise_paths() -> (r: Vec<String>)
    ensures
        strings_view(r@) == default_noise_paths_view(),
{
    let mut v: Vec<String> = Vec::new();
    v.push(String::from_str("/rustc/"));
    v.push(String::from_str("/sysdeps/"));
    proof {
        assert(strings_view(v@) =~= default_noise_paths_view());
    }
    v
}

/// Some entry's location path starts with `prefix`.
pub open spec fn spec_has_location(s: Seq<EntryView>, prefix: Seq<char>) -> bool {
    exists|i: int|
        0 <= i < s.len() && match #[trigger] s[i].location {
            Some(l) => is_prefix(l.path, prefix),
            None => false,
        }
}

impl Backtrace {
    /// Remove, in place, every entry that is noise under the given
    /// marker sets; the surviving entries keep their order.
    pub fn filter_with(&mut self, noise_functions: &Vec<String>, noise_paths: &Vec<String>)
        ensures
            final (self)@ == spec_prune(
                old(self)@,
                strings_view(noise_functions@),
                strings_view(noise_paths@),
            ),
    {
        let ghost sv = old(self)@;
        let ghost nf = strings_view(noise_functions@);
        let ghost np = strings_view(noise_paths@);
        let n = self.0.len();
        let mut kept: Vec<Entry> = Vec::new();
        let mut i: usize = 0;
        while i < n
            invariant
                i <= n == self.0@.len(),
                sv == entries_view(self.0@),
                nf == strings_view(noise_functions@),
                np == strings_view(noise_paths@),
                entries_view(kept@) =~= spec_prune(sv.take(i as int), nf, np),
            decreases n - i,
        {
            proof {
                assert(sv.take(i + 1).drop_last() =~= sv.take(i as int));
                assert(sv.take(i + 1).last() == sv[i as int]);
            }
            if !entry_is_noise(&self.0[i], noise_functions, noise_paths) {
                let e = clone_entry(&self.0[i]);
                kept.push(e);
            }
            proof {
                reveal_with_fuel(Seq::<_>::filter, 2);
                assert(entries_view(kept@) =~= spec_prune(sv.take(i + 1), nf, np));
            }
            i = i + 1;
        }
        proof {
            assert(sv.take(n as int) =~= sv);
        }
        self.0 = kept;
    }

    /// Remove, in place, every entry that is noise under the default
    /// marker sets.
    pub fn filter(&mut self)
        ensures
            final (self)@ == spec_prune(
                old(self)@,
                default_noise_functions_view(),
                default_noise_paths_view(),
            ),
    {
        let noise_functions = default_noise_functions();
        let noise_paths = default_noise_paths();
        self.filter_with(&noise_functions, &noise_paths);
    }

    /// Does any entry's location path start with the given prefix?
    /// False for an empty backtrace.
    pub fn has_location(&self, location: &str) -> (r: bool)
        ensures
            r == spec_has_location(self@, location@),
    {
        let n = self.0.len();
        let mut i: usize = 0;
        while i < n
            invariant
                i <= n == self.0@.len(),
                forall|t: int|
                    0 <= t < i ==> match #[trigger] self@[t].location {
                        Some(l) => !is_prefix(l.path, location@),
                        None => true,
                    },
            decreases n - i,
        {
            match &self.0[i].location {
                Some(l) => {
                    if str_starts_with(l.path.as_str(), location) {
                        proof {
                            assert(self@[i as int].location matches Some(lv) && lv.path == l.path@);
                        }
                        return true;
                    }
                },
                None => {},
            }
            i = i + 1;
        }
        false
    }
}

/// Pruning only removes: it never grows the backtrace, and every
/// surviving entry is one of the original entries and is not noise.
pub proof fn lemma_prune_only_removes(
    s: Seq<EntryView>,
    noise_functions: Seq<Seq<char>>,
    noise_paths: Seq<Seq<char>>,
)
    ensures
        spec_prune(s, noise_functions, noise_paths).len() <= s.len(),
        forall|i: int|
            0 <= i < spec_prune(s, noise_functions, noise_paths).len() ==> !is_noise(
                #[trigger] spec_prune(s, noise_functions, noise_paths)[i],
                noise_functions,
                noise_paths,
            ) && s.contains(spec_prune(s, noise_functions, noise_paths)[i]),
    decreases s.len(),
{
    reveal_with_fuel(Seq::<_>::filter, 2);
    if s.len() > 0 {
        lemma_prune_only_removes(s.drop_last(), noise_functions, noise_paths);
        let p = spec_prune(s, noise_functions, noise_paths);
        let q = spec_prune(s.drop_last(), noise_functions, noise_paths);
        assert forall|i: int|
            0 <= i < p.len() implies !is_noise(#[trigger] p[i], noise_functions, noise_paths)
            && s.contains(p[i]) by {
            if i < q.len() {
                assert(p[i] == q[i]);
                assert(s.drop_last().contains(q[i]));
                let j = choose|j: int|
                    0 <= j < s.drop_last().len() && s.drop_last()[j] == q[i];
                assert(0 <= j < s.len() && s[j] == p[i]);
            } else {
                assert(p[i] == s.last());
                assert(s[s.len() - 1] == p[i]);
            }
        }
    }
}

/// Everything that survives pruning survives a second pruning:
/// pruning is idempotent.
pub proof fn lemma_prune_idempotent(
    s: Seq<EntryView>,
    noise_functions: Seq<Seq<char>>,
    noise_paths: Seq<Seq<char>>,
)
    ensures
        spec_prune(spec_prune(s, noise_functions, noise_paths), noise_functions, noise_paths)
            == spec_prune(s, noise_functions, noise_paths),
    decreases s.len(),
{
    if s.len() > 0 {
        reveal_with_fuel(Seq::<_>::filter, 2);
        lemma_prune_idempotent(s.drop_last(), noise_functions, noise_paths);
        let p = spec_prune(s, noise_functions, noise_paths);
        let q = spec_prune(s.drop_last(), noise_functions, noise_paths);
        if !is_noise(s.last(), noise_functions, noise_paths) {
            assert(p =~= q.push(s.last()));
            assert(p.drop_last() =~= q);
            assert(spec_prune(p, noise_functions, noise_paths) =~= spec_prune(
                q,
                noise_functions,
                noise_paths,
            ).push(s.last()));
        } else {
            assert(p =~= q);
        }
    }
}

} // verus!

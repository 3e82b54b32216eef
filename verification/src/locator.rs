//! The storage locator grammar and its resolver.
//!
//! A locator has the shape `scheme://host/path`. The scheme is an exact,
//! case-sensitive name of a backend family — `memory`, `file`, `solid` or
//! `sqlite` — optionally suffixed with the compression modifier `+flate`.
//! The engine also knows a brotli modifier, but this build compiles that
//! adapter out and would silently hand back the uncompressed backend, the
//! silent fallback a resolver must not allow, so the grammar refuses it as
//! an unsupported scheme. The grammar is deliberately conservative (plain
//! ASCII hosts and paths, no credentials, no ports, no percent escapes) so
//! that every accepted locator is also accepted by the engine's own URL
//! parser, which aborts the process on input it cannot parse. A `file`
//! locator addresses the local filesystem and must leave the host empty, as
//! in `file:///some/dir`.

use vstd::prelude::*;

use crate::errors::ToolError;

verus! {

/// The backend family a locator names.
#[derive(Clone, Copy, Debug, PartialEq, Eq, Structural)]
pub enum BackendKind {
    /// Volatile in-memory storage.
    Memory,
    /// A directory of the local filesystem.
    FileSystem,
    /// A remote document store reached over the network.
    Solid,
    /// An embedded database file.
    Sqlite,
}

/// The transparent compression layer wrapped around a backend, if any.
#[derive(Clone, Copy, Debug, PartialEq, Eq, Structural)]
pub enum Compression {
    Plain,
    Flate,
}

/// A locator resolved into its backend descriptor.
#[derive(Debug)]
pub struct LocatorParts {
    pub kind: BackendKind,
    pub compression: Compression,
    pub host: String,
    pub path: String,
}

pub open spec fn is_letter_char(c: char) -> bool {
    ||| 'a' as u32 <= c as u32 && c as u32 <= 'z' as u32
    ||| 'A' as u32 <= c as u32 && c as u32 <= 'Z' as u32
}

pub open spec fn is_digit_char(c: char) -> bool {
    '0' as u32 <= c as u32 && c as u32 <= '9' as u32
}

pub open spec fn is_scheme_char(c: char) -> bool {
    ||| is_letter_char(c)
    ||| is_digit_char(c)
    ||| c == '+'
    ||| c == '-'
    ||| c == '.'
}

pub open spec fn is_host_char(c: char) -> bool {
    ||| is_letter_char(c)
    ||| is_digit_char(c)
    ||| c == '.'
    ||| c == '-'
    ||| c == '_'
}

pub open spec fn is_path_char(c: char) -> bool {
    ||| is_letter_char(c)
    ||| is_digit_char(c)
    ||| c == '/'
    ||| c == '.'
    ||| c == '_'
    ||| c == '-'
}

/// The locator's scheme ends at position `a`: scheme characters up to `a`,
/// then the separator `://`.
pub open spec fn shape_at(s: Seq<char>, a: int) -> bool {
    &&& 1 <= a
    &&& a + 3 <= s.len()
    &&& s[a] == ':'
    &&& s[a + 1] == '/'
    &&& s[a + 2] == '/'
    &&& forall|i: int| 0 <= i < a ==> is_scheme_char(#[trigger] s[i])
}

/// The locator has a non-empty scheme followed by `://`.
pub open spec fn shape_ok(s: Seq<char>) -> bool {
    exists|a: int| shape_at(s, a)
}

/// The unique scheme end position of a well-shaped locator.
pub open spec fn shape_pos(s: Seq<char>) -> int {
    choose|a: int| shape_at(s, a)
}

/// The scheme end of a well-shaped locator is unique: no scheme character
/// is a colon.
pub proof fn lemma_shape_unique(s: Seq<char>, a1: int, a2: int)
    requires
        shape_at(s, a1),
        shape_at(s, a2),
    ensures
        a1 == a2,
{
    if a1 < a2 {
        assert(is_scheme_char(s[a1]));
    }
    if a2 < a1 {
        assert(is_scheme_char(s[a2]));
    }
}

pub open spec fn scheme_of(s: Seq<char>) -> Seq<char> {
    s.subrange(0, shape_pos(s))
}

pub open spec fn rest_of(s: Seq<char>) -> Seq<char> {
    s.subrange(shape_pos(s) + 3, s.len() as int)
}

/// The host region of the part after `://` ends at `h`: the first `/`, or the
/// end when there is none.
pub open spec fn host_split_at(r: Seq<char>, h: int) -> bool {
    &&& 0 <= h <= r.len()
    &&& forall|i: int| 0 <= i < h ==> (#[trigger] r[i]) != '/'
    &&& h == r.len() || r[h] == '/'
}

pub open spec fn host_split_pos(r: Seq<char>) -> int {
    choose|h: int| host_split_at(r, h)
}

/// The host split of the part after the separator is unique: it sits at
/// the first slash, or at the end.
pub proof fn lemma_host_split_unique(r: Seq<char>, h1: int, h2: int)
    requires
        host_split_at(r, h1),
        host_split_at(r, h2),
    ensures
        h1 == h2,
{
    if h1 < h2 {
        assert(r[h1] != '/');
    }
    if h2 < h1 {
        assert(r[h2] != '/');
    }
}

pub open spec fn host_of(s: Seq<char>) -> Seq<char> {
    rest_of(s).subrange(0, host_split_pos(rest_of(s)))
}

pub open spec fn path_of(s: Seq<char>) -> Seq<char> {
    rest_of(s).subrange(host_split_pos(rest_of(s)), rest_of(s).len() as int)
}

pub open spec fn ends_with(s: Seq<char>, suffix: Seq<char>) -> bool {
    s.len() >= suffix.len() && s.subrange(s.len() - suffix.len(), s.len() as int) == suffix
}

/// The compression modifier encoded in a scheme.
pub open spec fn comp_of_scheme(sch: Seq<char>) -> Compression {
    if ends_with(sch, "+flate"@) {
        Compression::Flate
    } else {
        Compression::Plain
    }
}

/// The scheme with its compression modifier stripped.
pub open spec fn base_of_scheme(sch: Seq<char>) -> Seq<char> {
    if ends_with(sch, "+flate"@) {
        sch.subrange(0, sch.len() - 6)
    } else {
        sch
    }
}

/// The backend family named by a base scheme, if any.
pub open spec fn kind_of_base(b: Seq<char>) -> Option<BackendKind> {
    if b == "memory"@ {
        Some(BackendKind::Memory)
    } else if b == "file"@ {
        Some(BackendKind::FileSystem)
    } else if b == "solid"@ {
        Some(BackendKind::Solid)
    } else if b == "sqlite"@ {
        Some(BackendKind::Sqlite)
    } else {
        None
    }
}

pub open spec fn scheme_known(sch: Seq<char>) -> bool {
    kind_of_base(base_of_scheme(sch)) is Some
}

/// Host and path obey their character sets, and a filesystem locator leaves
/// the host empty.
pub open spec fn components_ok(s: Seq<char>) -> bool {
    &&& forall|i: int| 0 <= i < host_of(s).len() ==> is_host_char(#[trigger] host_of(s)[i])
    &&& forall|i: int| 0 <= i < path_of(s).len() ==> is_path_char(#[trigger] path_of(s)[i])
    &&& kind_of_base(base_of_scheme(scheme_of(s))) == Some(BackendKind::FileSystem) ==> host_of(
        s,
    ).len() == 0
}

/// The locator grammar: shape, known scheme, and well-formed components.
/// Every locator accepted here is safe to hand to the engine's URL parser.
pub open spec fn locator_ok(s: Seq<char>) -> bool {
    &&& shape_ok(s)
    &&& scheme_known(scheme_of(s))
    &&& components_ok(s)
}

fn is_scheme_c(c: char) -> (b: bool)
    ensures
        b == is_scheme_char(c),
{
    (c as u32 >= 'a' as u32 && c as u32 <= 'z' as u32) || (c as u32 >= 'A' as u32 && c as u32
        <= 'Z' as u32) || (c as u32 >= '0' as u32 && c as u32 <= '9' as u32) || c as u32 == '+'
        as u32 || c as u32 == '-' as u32 || c as u32 == '.' as u32
}

fn is_host_c(c: char) -> (b: bool)
    ensures
        b == is_host_char(c),
{
    (c as u32 >= 'a' as u32 && c as u32 <= 'z' as u32) || (c as u32 >= 'A' as u32 && c as u32
        <= 'Z' as u32) || (c as u32 >= '0' as u32 && c as u32 <= '9' as u32) || c as u32 == '.'
        as u32 || c as u32 == '-' as u32 || c as u32 == '_' as u32
}

fn is_path_c(c: char) -> (b: bool)
    ensures
        b == is_path_char(c),
{
    (c as u32 >= 'a' as u32 && c as u32 <= 'z' as u32) || (c as u32 >= 'A' as u32 && c as u32
        <= 'Z' as u32) || (c as u32 >= '0' as u32 && c as u32 <= '9' as u32) || c as u32 == '/'
        as u32 || c as u32 == '.' as u32 || c as u32 == '_' as u32 || c as u32 == '-' as u32
}

fn str_equal(a: &str, b: &str) -> (r: bool)
    ensures
        r == (a@ == b@),
{
    let aa = a.to_owned();
    let bb = b.to_owned();
    aa == bb
}

/// Parses a locator into its backend descriptor.
///
/// Returns `InvalidLocator` when the string does not follow the grammar, and
/// `UnsupportedBackend` when it is well shaped but its scheme names no known
/// backend family; no fallback is attempted in either case.
pub fn parse_locator(s: &String) -> (r: Result<LocatorParts, ToolError>)
    ensures
        r is Ok <==> locator_ok(s@),
        r matches Ok(p) ==> Some(p.kind) == kind_of_base(base_of_scheme(scheme_of(s@)))
            && p.compression == comp_of_scheme(scheme_of(s@)) && p.host@ == host_of(s@) && p.path@
            == path_of(s@),
        r matches Err(e) ==> (e is InvalidLocator || e is UnsupportedBackend),
        r matches Err(e) ==> ((e is UnsupportedBackend) <==> (shape_ok(s@) && !scheme_known(
            scheme_of(s@),
        ))),
{
    let st = s.as_str();
    let n = st.unicode_len();
    // Scan the scheme region.
    let mut i: usize = 0;
    while i < n && is_scheme_c(st.get_char(i))
        invariant
            0 <= i <= n,
            n == s@.len(),
            st@ == s@,
            forall|j: int| 0 <= j < i ==> is_scheme_char(#[trigger] s@[j]),
        decreases n - i,
    {
        i = i + 1;
    }
    if i == 0 || i >= n {
        proof {
            assert forall|a: int| shape_at(s@, a) implies false by {
                if i == 0 {
                    // A scheme needs at least one scheme character.
                    if a <= i {
                        assert(is_scheme_char(s@[a]));
                    } else {
                        assert(is_scheme_char(s@[i as int]));
                    }
                } else {
                    // The whole string is scheme characters: no colon exists.
                    assert(is_scheme_char(s@[a]));
                }
            }
        }
        return Err(ToolError::InvalidLocator);
    }
    let c = st.get_char(i);
    if !(c as u32 == ':' as u32) {
        proof {
            assert forall|a: int| shape_at(s@, a) implies false by {
                if a < i {
                    assert(is_scheme_char(s@[a]));
                } else if a > i {
                    assert(is_scheme_char(s@[i as int]));
                }
            }
        }
        return Err(ToolError::InvalidLocator);
    }
    if n - i < 3 {
        proof {
            assert forall|a: int| shape_at(s@, a) implies false by {
                if a < i {
                    assert(is_scheme_char(s@[a]));
                } else if a > i {
                    assert(is_scheme_char(s@[i as int]));
                }
            }
        }
        return Err(ToolError::InvalidLocator);
    }
    let s1 = st.get_char(i + 1);
    let s2 = st.get_char(i + 2);
    if !(s1 as u32 == '/' as u32) || !(s2 as u32 == '/' as u32) {
        proof {
            assert forall|a: int| shape_at(s@, a) implies false by {
                if a < i {
                    assert(is_scheme_char(s@[a]));
                } else if a > i {
                    assert(is_scheme_char(s@[i as int]));
                }
            }
        }
        return Err(ToolError::InvalidLocator);
    }
    proof {
        assert(shape_at(s@, i as int));
        lemma_shape_unique(s@, i as int, shape_pos(s@));
        assert(scheme_of(s@) =~= s@.subrange(0, i as int));
    }
    // Strip the compression modifier and classify the base scheme.
    let flate_suffix = i >= 6 && str_equal(st.substring_char(i - 6, i), "+flate");
    proof {
        let sch = scheme_of(s@);
        if i >= 6 {
            assert(s@.subrange(i - 6, i as int) =~= sch.subrange(sch.len() - 6, sch.len() as int));
        }
        assert(flate_suffix == ends_with(sch, "+flate"@)) by {
            if ends_with(sch, "+flate"@) {
                reveal_strlit("+flate");
                assert(sch.len() >= 6);
            }
        }
    }
    let base_end = if flate_suffix {
        i - 6
    } else {
        i
    };
    let compression = if flate_suffix {
        Compression::Flate
    } else {
        Compression::Plain
    };
    proof {
        assert(compression == comp_of_scheme(scheme_of(s@)));
        assert(s@.subrange(0, base_end as int) =~= base_of_scheme(scheme_of(s@)));
    }
    let base = st.substring_char(0, base_end);
    let kind = if str_equal(base, "memory") {
        BackendKind::Memory
    } else if str_equal(base, "file") {
        BackendKind::FileSystem
    } else if str_equal(base, "solid") {
        BackendKind::Solid
    } else if str_equal(base, "sqlite") {
        BackendKind::Sqlite
    } else {
        return Err(ToolError::UnsupportedBackend);
    };
    proof {
        assert(Some(kind) == kind_of_base(base_of_scheme(scheme_of(s@))));
    }
    // Split host and path at the first slash after the separator.
    let rest_start = i + 3;
    let mut h: usize = rest_start;
    while h < n && !(st.get_char(h) as u32 == '/' as u32)
        invariant
            rest_start <= h <= n,
            n == s@.len(),
            st@ == s@,
            rest_start == i + 3,
            i + 3 <= n,
            forall|j: int| rest_start <= j < h ==> (#[trigger] s@[j]) != '/',
        decreases n - h,
    {
        h = h + 1;
    }
    proof {
        let rest = rest_of(s@);
        assert(rest =~= s@.subrange(rest_start as int, n as int));
        assert(host_split_at(rest, h - rest_start));
        lemma_host_split_unique(rest, h - rest_start, host_split_pos(rest));
        assert(host_of(s@) =~= s@.subrange(rest_start as int, h as int));
        assert(path_of(s@) =~= s@.subrange(h as int, n as int));
    }
    // Check the host character set.
    let mut j: usize = rest_start;
    while j < h
        invariant
            rest_start <= j <= h <= n,
            n == s@.len(),
            st@ == s@,
            host_of(s@) =~= s@.subrange(rest_start as int, h as int),
            shape_ok(s@),
            scheme_known(scheme_of(s@)),
            forall|m: int| rest_start <= m < j ==> is_host_char(#[trigger] s@[m]),
        decreases h - j,
    {
        if !is_host_c(st.get_char(j)) {
            proof {
                assert(host_of(s@)[j - rest_start] == s@[j as int]);
                assert(!components_ok(s@));
            }
            return Err(ToolError::InvalidLocator);
        }
        j = j + 1;
    }
    // Check the path character set.
    let mut k: usize = h;
    while k < n
        invariant
            h <= k <= n,
            n == s@.len(),
            st@ == s@,
            path_of(s@) =~= s@.subrange(h as int, n as int),
            shape_ok(s@),
            scheme_known(scheme_of(s@)),
            forall|m: int| h <= m < k ==> is_path_char(#[trigger] s@[m]),
        decreases n - k,
    {
        if !is_path_c(st.get_char(k)) {
            proof {
                assert(path_of(s@)[k - h] == s@[k as int]);
                assert(!components_ok(s@));
            }
            return Err(ToolError::InvalidLocator);
        }
        k = k + 1;
    }
    // A filesystem locator must leave the host empty.
    if matches!(kind, BackendKind::FileSystem) && h > rest_start {
        proof {
            assert(host_of(s@).len() > 0);
            assert(!components_ok(s@));
        }
        return Err(ToolError::InvalidLocator);
    }
    let host = st.substring_char(rest_start, h).to_owned();
    let path = st.substring_char(h, n).to_owned();
    proof {
        assert(forall|m: int| 0 <= m < host_of(s@).len() ==> is_host_char(
            #[trigger] host_of(s@)[m],
        ));
        assert(forall|m: int| 0 <= m < path_of(s@).len() ==> is_path_char(
            #[trigger] path_of(s@)[m],
        ));
        assert(components_ok(s@));
        assert(locator_ok(s@));
    }
    Ok(
        LocatorParts {
            kind,
            compression,
            host,
            path,
        },
    )
}

} // verus!

//! Container identities as they appear in cgroup paths.
//!
//! A path names a pod of Kubernetes by a component `...pod<uuid>.slice`
//! below a `kubepods` slice, and a container of Docker or containerd by a
//! component `<id>.scope` below `system.slice`.

use vstd::prelude::*;
use vstd::string::StringSliceAdditionalSpecFns;
use crate::bytes::{contains_bytes, find_bytes, first_occurrence, matches_at, occurs_at, tail_from};
use crate::error::Error;
use crate::text::{first_match, search_spec};

verus! {

/// Pattern of the path component that names a pod.
pub open spec fn pod_pattern_spec() -> Seq<char> {
    "pod[[:xdigit:]_-]{36}[.]slice"@
}

/// Pattern of the end of a path component that names a container.
pub open spec fn scope_pattern_spec() -> Seq<char> {
    "[[:xdigit:]]{64}[.]scope|[[:xdigit:]]{32}[.]scope"@
}

/// Marker of a path below the slice of Kubernetes.
pub open spec fn pod_marker_spec() -> Seq<u8> {
    "kubepods".spec_bytes()
}

/// Marker of a path below the system slice.
pub open spec fn system_marker_spec() -> Seq<u8> {
    "system.slice".spec_bytes()
}

/// Marker of a path of a container that Docker started.
pub open spec fn docker_marker_spec() -> Seq<u8> {
    "system.slice/docker-".spec_bytes()
}

/// What precedes the identifier in a pod's component.
pub open spec fn pod_prefix_spec() -> Seq<u8> {
    "pod".spec_bytes()
}

/// What follows the identifier in a pod's component.
pub open spec fn slice_suffix_spec() -> Seq<u8> {
    ".slice".spec_bytes()
}

/// What follows the identifier in a container's component.
pub open spec fn scope_suffix_spec() -> Seq<u8> {
    ".scope".spec_bytes()
}

/// Length of a pod's identifier: a UUID with its four separators.
pub const POD_ID_LEN: usize = 36;

/// Length of a short container identifier.
pub const SHORT_ID_LEN: usize = 32;

/// Length of a full container identifier.
pub const FULL_ID_LEN: usize = 64;

/// `byte` is a hexadecimal digit in ASCII, of either case.
pub open spec fn is_hex_digit(byte: u8) -> bool {
    (0x30 <= byte <= 0x39) || (0x41 <= byte <= 0x46) || (0x61 <= byte <= 0x66)
}

/// Every byte of `id` is a hexadecimal digit.
pub open spec fn all_hex(id: Seq<u8>) -> bool {
    forall|i: int| 0 <= i < id.len() ==> is_hex_digit(#[trigger] id[i])
}

/// Every byte of `id` is a hexadecimal digit or an underscore.
pub open spec fn all_hex_or_underscore(id: Seq<u8>) -> bool {
    forall|i: int| 0 <= i < id.len() ==> (is_hex_digit(#[trigger] id[i]) || id[i] == 0x5f)
}

/// `raw` with every hyphen replaced by an underscore.
pub open spec fn underscored(raw: Seq<u8>) -> Seq<u8> {
    Seq::new(
        raw.len(),
        |i: int|
            if raw[i] == 0x2d {
                0x5fu8
            } else {
                raw[i]
            },
    )
}

/// The pod identifier that a match of the pod pattern in `tail` gives: the
/// 36 bytes between `pod` and `.slice`, hyphens turned into underscores,
/// provided the match has that shape and the identifier holds nothing but
/// hexadecimal digits and underscores.
pub open spec fn pod_id_spec(tail: Seq<u8>, found: Option<(int, int)>) -> Option<Seq<u8>> {
    match found {
        None => None,
        Some((start, end)) => {
            let id = underscored(tail.subrange(start + 3, start + 39));
            if 0 <= start && end <= tail.len() && end - start == 45 && occurs_at(
                tail,
                pod_prefix_spec(),
                start,
            ) && occurs_at(tail, slice_suffix_spec(), start + 39) && all_hex_or_underscore(id) {
                Some(id)
            } else {
                None
            }
        },
    }
}

/// The container identifier that a match of the scope pattern in `tail`
/// gives: the 32 or 64 hexadecimal digits before `.scope`, provided the
/// match has that shape.
pub open spec fn scope_id_spec(tail: Seq<u8>, found: Option<(int, int)>) -> Option<Seq<u8>> {
    match found {
        None => None,
        Some((start, end)) => {
            let id = tail.subrange(start, end - 6);
            if 0 <= start && end <= tail.len() && (end - start == 38 || end - start == 70)
                && occurs_at(tail, scope_suffix_spec(), end - 6) && all_hex(id) {
                Some(id)
            } else {
                None
            }
        },
    }
}

/// The part of `path` that starts at the first occurrence of `marker`.
pub open spec fn from_marker(path: Seq<u8>, marker: Seq<u8>) -> Seq<u8> {
    let at = choose|at: int| first_occurrence(path, marker, at);
    path.subrange(at, path.len() as int)
}

/// The identity that a cgroup path names, if it names one: that of a pod
/// where the path lies below the slice of Kubernetes, else that of a
/// container where it lies below the system slice.
pub open spec fn container_id_spec(path: Seq<u8>) -> Option<Seq<u8>> {
    if contains_bytes(path, pod_marker_spec()) {
        let tail = from_marker(path, pod_marker_spec());
        pod_id_spec(tail, search_spec(pod_pattern_spec(), tail))
    } else if contains_bytes(path, system_marker_spec()) {
        let tail = from_marker(path, system_marker_spec());
        scope_id_spec(tail, search_spec(scope_pattern_spec(), tail))
    } else {
        None
    }
}

/// A path that names a pod or a container started by Docker.
pub open spec fn names_container(path: Seq<u8>) -> bool {
    contains_bytes(path, pod_marker_spec()) || contains_bytes(path, docker_marker_spec())
}

/// Whether `byte` is a hexadecimal digit in ASCII.
pub fn hex_digit(byte: u8) -> (yes: bool)
    ensures
        yes == is_hex_digit(byte),
{
    (0x30 <= byte && byte <= 0x39) || (0x41 <= byte && byte <= 0x46) || (0x61 <= byte && byte
        <= 0x66)
}

/// The first occurrence of a byte string is at one position only.
pub proof fn lemma_first_occurrence_unique(hay: Seq<u8>, needle: Seq<u8>, a: int, b: int)
    requires
        first_occurrence(hay, needle, a),
        first_occurrence(hay, needle, b),
    ensures
        a == b,
{
    if a < b {
        assert(!occurs_at(hay, needle, a));
    } else if b < a {
        assert(!occurs_at(hay, needle, b));
    }
}

/// The pod identifier in `tail`, given where the pod pattern was found.
pub fn pod_id(tail: &[u8], found: Option<(usize, usize)>) -> (id: Result<Vec<u8>, Error>)
    ensures
        id matches Ok(bytes) ==> pod_id_spec(tail@, spans(found)) == Some(bytes@),
        id matches Err(e) ==> e == Error::ParseError && pod_id_spec(tail@, spans(found)) is None,
{
    let (start, end) = match found {
        Some(span) => span,
        None => { return Err(Error::ParseError); },
    };
    if end > tail.len() || start > end || end - start != 45 {
        return Err(Error::ParseError);
    }
    if !matches_at(tail, "pod".as_bytes(), start) || !matches_at(
        tail,
        ".slice".as_bytes(),
        start + 39,
    ) {
        return Err(Error::ParseError);
    }
    let ghost raw = tail@.subrange(start + 3, start + 39);
    let mut id: Vec<u8> = Vec::new();
    let mut i: usize = 0;
    while i < POD_ID_LEN
        invariant
            i <= POD_ID_LEN,
            found == Some((start, end)),
            start + 45 <= tail@.len() <= usize::MAX,
            raw == tail@.subrange(start + 3, start + 39),
            id@.len() == i,
            forall|k: int| 0 <= k < i ==> id@[k] == underscored(raw)[k],
            forall|k: int| 0 <= k < i ==> (is_hex_digit(#[trigger] id@[k]) || id@[k] == 0x5f),
        decreases POD_ID_LEN - i,
    {
        let byte = tail[start + 3 + i];
        let kept: u8 = if byte == 0x2d {
            0x5f
        } else {
            byte
        };
        assert(raw[i as int] == byte);
        assert(underscored(raw)[i as int] == kept);
        if !(hex_digit(kept) || kept == 0x5f) {
            assert(!all_hex_or_underscore(underscored(raw)));
            return Err(Error::ParseError);
        }
        id.push(kept);
        i = i + 1;
    }
    assert(id@ =~= underscored(raw));
    Ok(id)
}

/// A span of byte offsets as a pair of integers.
pub open spec fn spans(found: Option<(usize, usize)>) -> Option<(int, int)> {
    match found {
        Some(span) => Some((span.0 as int, span.1 as int)),
        None => None,
    }
}

/// The container identifier in `tail`, given where the scope pattern was
/// found.
pub fn scope_id(tail: &[u8], found: Option<(usize, usize)>) -> (id: Result<Vec<u8>, Error>)
    ensures
        id matches Ok(bytes) ==> scope_id_spec(tail@, spans(found)) == Some(bytes@),
        id matches Err(e) ==> e == Error::ParseError && scope_id_spec(tail@, spans(found)) is None,
{
    let (start, end) = match found {
        Some(span) => span,
        None => { return Err(Error::ParseError); },
    };
    if end > tail.len() || start > end {
        return Err(Error::ParseError);
    }
    let width: usize = end - start;
    if width != SHORT_ID_LEN + 6 && width != FULL_ID_LEN + 6 {
        return Err(Error::ParseError);
    }
    if !matches_at(tail, ".scope".as_bytes(), end - 6) {
        return Err(Error::ParseError);
    }
    let ghost raw = tail@.subrange(start as int, end - 6);
    let mut id: Vec<u8> = Vec::new();
    let mut i: usize = start;
    while i < end - 6
        invariant
            start <= i <= end - 6,
            found == Some((start, end)),
            end <= tail@.len(),
            raw == tail@.subrange(start as int, end - 6),
            id@ == tail@.subrange(start as int, i as int),
            forall|k: int| 0 <= k < i - start ==> is_hex_digit(#[trigger] raw[k]),
        decreases end - 6 - i,
    {
        let byte = tail[i];
        assert(raw[i - start] == byte);
        if !hex_digit(byte) {
            assert(!all_hex(raw));
            return Err(Error::ParseError);
        }
        id.push(byte);
        i = i + 1;
    }
    assert(id@ =~= raw);
    Ok(id)
}

/// The identity that the cgroup path `path` names.
///
/// Fails with `ParseError` when the path holds neither marker, when the
/// pattern of the marker's kind is not found behind it, or when what was
/// found is no identifier.
pub fn parse_id_bytes(path: &[u8]) -> (id: Result<Vec<u8>, Error>)
    ensures
        id matches Ok(bytes) ==> container_id_spec(path@) == Some(bytes@),
        id matches Err(e) ==> e == Error::ParseError && container_id_spec(path@) is None,
{
    match find_bytes(path, "kubepods".as_bytes()) {
        Some(at) => {
            proof {
                let chosen = choose|c: int| first_occurrence(path@, pod_marker_spec(), c);
                lemma_first_occurrence_unique(path@, pod_marker_spec(), at as int, chosen);
            }
            let tail = tail_from(path, at);
            let found = first_match("pod[[:xdigit:]_-]{36}[.]slice", tail.as_slice());
            pod_id(tail.as_slice(), found)
        },
        None => match find_bytes(path, "system.slice".as_bytes()) {
            Some(at) => {
                proof {
                    let chosen = choose|c: int| first_occurrence(path@, system_marker_spec(), c);
                    lemma_first_occurrence_unique(path@, system_marker_spec(), at as int, chosen);
                }
                let tail = tail_from(path, at);
                let found = first_match(
                    "[[:xdigit:]]{64}[.]scope|[[:xdigit:]]{32}[.]scope",
                    tail.as_slice(),
                );
                scope_id(tail.as_slice(), found)
            },
            None => Err(Error::ParseError),
        },
    }
}

/// Whether `path` names a pod or a container started by Docker.
pub fn path_names_container(path: &[u8]) -> (yes: bool)
    ensures
        yes == names_container(path@),
{
    find_bytes(path, "kubepods".as_bytes()).is_some() || find_bytes(
        path,
        "system.slice/docker-".as_bytes(),
    ).is_some()
}

} // verus!

//! The caller's side: how a workload finds out under which identity the
//! agent knows it, and how it reads the kind of environment in an answer.

use vstd::prelude::*;
use vstd::slice::{slice_subrange, slice_to_vec};
use vstd::string::StringSliceAdditionalSpecFns;
use vstd::utf8::{encode_utf8, valid_utf8};
use crate::bytes::{
    contains_bytes, find_bytes, first_occurrence, split_bytes, split_spec,
};
use crate::cgroup::{lemma_first_occurrence_unique, underscored};
use crate::error::Error;
use crate::text::decode_text;

verus! {

/// The kinds of trusted execution environment.
#[allow(non_camel_case_types)]
#[derive(Clone, Copy, Debug, PartialEq, Eq, Structural)]
pub enum TeeType {
    PLAIN,
    TPM,
    TDX,
    SEV,
    CCA,
}

/// The kind of environment that the number `tee_id` stands for; `PLAIN`
/// for a number that stands for none.
pub open spec fn tee_type_spec(tee_id: i32) -> TeeType {
    if tee_id == 0 {
        TeeType::TPM
    } else if tee_id == 1 {
        TeeType::TDX
    } else if tee_id == 2 {
        TeeType::SEV
    } else if tee_id == 3 {
        TeeType::CCA
    } else {
        TeeType::PLAIN
    }
}

/// What precedes a container's identifier in a mount of Docker.
pub open spec fn docker_mount_spec() -> Seq<u8> {
    "/docker/containers/".spec_bytes()
}

/// What precedes a pod's identifier in a mount of the kubelet.
pub open spec fn pod_mount_spec() -> Seq<u8> {
    "/kubelet/pods/".spec_bytes()
}

/// What is left of `line` behind the occurrences of `pattern`, which are
/// looked for from the left, each behind the one before.
pub open spec fn after_last(line: Seq<u8>, pattern: Seq<u8>) -> Seq<u8>
    decreases line.len(),
{
    if pattern.len() > 0 && contains_bytes(line, pattern) {
        let at = choose|at: int| first_occurrence(line, pattern, at);
        if 0 <= at && at + pattern.len() <= line.len() {
            after_last(line.subrange(at + pattern.len(), line.len() as int), pattern)
        } else {
            line
        }
    } else {
        line
    }
}

/// The part of `rest` before its first slash, if it has a slash.
pub open spec fn before_slash(rest: Seq<u8>) -> Option<Seq<u8>> {
    let parts = split_spec(rest, 0x2f);
    if parts.len() >= 2 {
        Some(parts[0])
    } else {
        None
    }
}

/// What one line of the mount table says of the identity: nothing where it
/// names neither a mount of Docker nor one of the kubelet; else the
/// identifier behind the marker up to the next slash, with underscores for
/// hyphens in a pod's, or a failure where no slash follows.
pub open spec fn line_identity(line: Seq<u8>) -> Option<Option<Seq<u8>>> {
    if contains_bytes(line, docker_mount_spec()) {
        Some(before_slash(after_last(line, docker_mount_spec())))
    } else if contains_bytes(line, pod_mount_spec()) {
        Some(
            match before_slash(after_last(line, pod_mount_spec())) {
                Some(id) => Some(underscored(id)),
                None => None,
            },
        )
    } else {
        None
    }
}

/// What the first `count` lines say of the identity: the word of the first
/// line that says anything.
pub open spec fn lines_identity(lines: Seq<Seq<u8>>, count: int) -> Option<Option<Seq<u8>>>
    decreases count,
{
    if count <= 0 {
        None
    } else {
        match lines_identity(lines, count - 1) {
            Some(word) => Some(word),
            None => line_identity(lines[count - 1]),
        }
    }
}

/// The identity that the mount table `mountinfo` gives its reader, if it
/// gives one that is text.
pub open spec fn mount_identity(mountinfo: Seq<u8>) -> Option<Seq<u8>> {
    let lines = split_spec(mountinfo, 0x0a);
    match lines_identity(lines, lines.len() as int) {
        Some(Some(id)) => if valid_utf8(id) {
            Some(id)
        } else {
            None
        },
        _ => None,
    }
}

/// What is left of `line` behind the occurrences of `pattern`.
pub fn rest_after_last(line: &[u8], pattern: &[u8]) -> (rest: Vec<u8>)
    ensures
        rest@ == after_last(line@, pattern@),
{
    let mut from: usize = 0;
    assert(line@.subrange(0, line@.len() as int) =~= line@);
    if pattern.len() > 0 {
        loop
            invariant
                from <= line@.len(),
                pattern@.len() > 0,
                after_last(line@, pattern@) == after_last(
                    line@.subrange(from as int, line@.len() as int),
                    pattern@,
                ),
            ensures
                from <= line@.len(),
                after_last(line@, pattern@) == line@.subrange(from as int, line@.len() as int),
            decreases line@.len() - from,
        {
            let tail = slice_subrange(line, from, line.len());
            match find_bytes(tail, pattern) {
                Some(at) => {
                    proof {
                        let chosen = choose|c: int| first_occurrence(tail@, pattern@, c);
                        lemma_first_occurrence_unique(tail@, pattern@, at as int, chosen);
                        assert(tail@.subrange(at + pattern@.len(), tail@.len() as int)
                            =~= line@.subrange(from + at + pattern@.len(), line@.len() as int));
                    }
                    from = from + at + pattern.len();
                },
                None => {
                    break ;
                },
            }
        }
    }
    slice_to_vec(slice_subrange(line, from, line.len()))
}

/// The identifier at the start of `rest`: what stands before the first
/// slash.
pub fn identifier_before_slash(rest: &[u8]) -> (id: Option<Vec<u8>>)
    ensures
        id matches Some(bytes) ==> before_slash(rest@) == Some(bytes@),
        id is None ==> before_slash(rest@) is None,
{
    let parts = split_bytes(rest, 0x2f);
    assert(crate::bytes::field_views(parts@).len() == parts@.len());
    if parts.len() >= 2 {
        assert(crate::bytes::field_views(parts@)[0] == parts@[0]@);
        Some(slice_to_vec(parts[0].as_slice()))
    } else {
        None
    }
}

/// `raw` with an underscore in place of each hyphen.
pub fn with_underscores(raw: &[u8]) -> (id: Vec<u8>)
    ensures
        id@ == underscored(raw@),
{
    let mut id: Vec<u8> = Vec::new();
    let mut i: usize = 0;
    while i < raw.len()
        invariant
            i <= raw@.len(),
            id@.len() == i,
            forall|k: int| 0 <= k < i ==> id@[k] == underscored(raw@)[k],
        decreases raw@.len() - i,
    {
        let byte = raw[i];
        if byte == 0x2d {
            id.push(0x5f);
        } else {
            id.push(byte);
        }
        i = i + 1;
    }
    assert(id@ =~= underscored(raw@));
    id
}

/// What one line of the mount table says of the identity.
pub fn identity_in_line(line: &[u8]) -> (word: Option<Option<Vec<u8>>>)
    ensures
        word is Some <==> line_identity(line@) is Some,
        word matches Some(Some(id)) ==> line_identity(line@) == Some(Some(id@)),
        word matches Some(None) ==> line_identity(line@) == Some(None::<Seq<u8>>),
{
    if find_bytes(line, "/docker/containers/".as_bytes()).is_some() {
        let rest = rest_after_last(line, "/docker/containers/".as_bytes());
        Some(identifier_before_slash(rest.as_slice()))
    } else if find_bytes(line, "/kubelet/pods/".as_bytes()).is_some() {
        let rest = rest_after_last(line, "/kubelet/pods/".as_bytes());
        match identifier_before_slash(rest.as_slice()) {
            Some(id) => Some(Some(with_underscores(id.as_slice()))),
            None => Some(None),
        }
    } else {
        None
    }
}

/// A client of the service at the Unix socket `ccnp_uds_path`.
pub struct CcnpServiceClient {
    pub ccnp_uds_path: String,
}

impl CcnpServiceClient {
    /// The kind of environment that the number `tee_id` in an answer stands
    /// for.
    pub fn get_tee_type_by_value(&self, tee_id: &i32) -> (tee_type: TeeType)
        ensures
            tee_type == tee_type_spec(*tee_id),
    {
        if *tee_id == 0 {
            TeeType::TPM
        } else if *tee_id == 1 {
            TeeType::TDX
        } else if *tee_id == 2 {
            TeeType::SEV
        } else if *tee_id == 3 {
            TeeType::CCA
        } else {
            TeeType::PLAIN
        }
    }

    /// The identity under which the agent knows the reader of the mount
    /// table `mountinfo`. The first line that names a mount of Docker or of
    /// the kubelet decides: the identity is what follows
    /// `/docker/containers/` up to the next slash, or what follows
    /// `/kubelet/pods/` up to the next slash with underscores for hyphens.
    /// A table without such a line, a line without that slash, and an
    /// identity that is no text are a `ParseError`.
    pub fn get_container_id(&self, mountinfo: &[u8]) -> (id: Result<String, Error>)
        ensures
            id matches Ok(text) ==> mount_identity(mountinfo@) == Some(encode_utf8(text@)),
            id matches Err(e) ==> e == Error::ParseError && mount_identity(mountinfo@) is None,
    {
        let lines = split_bytes(mountinfo, 0x0a);
        let ghost views = split_spec(mountinfo@, 0x0a);
        assert(crate::bytes::field_views(lines@).len() == lines@.len());
        let mut i: usize = 0;
        while i < lines.len()
            invariant
                i <= lines@.len(),
                views == split_spec(mountinfo@, 0x0a),
                views == crate::bytes::field_views(lines@),
                lines_identity(views, i as int) is None,
            decreases lines@.len() - i,
        {
            assert(views[i as int] == lines@[i as int]@);
            match identity_in_line(lines[i].as_slice()) {
                Some(word) => {
                    proof {
                        lemma_first_word_decides(views, i + 1, views.len() as int);
                    }
                    return match word {
                        Some(id) => match decode_text(id) {
                            Some(text) => Ok(text),
                            None => Err(Error::ParseError),
                        },
                        None => Err(Error::ParseError),
                    };
                },
                None => {},
            }
            i = i + 1;
        }
        Err(Error::ParseError)
    }
}

/// Once a line has said something of the identity, later lines change
/// nothing.
pub proof fn lemma_first_word_decides(lines: Seq<Seq<u8>>, count: int, more: int)
    requires
        0 <= count <= more,
        lines_identity(lines, count) is Some,
    ensures
        lines_identity(lines, more) == lines_identity(lines, count),
    decreases more - count,
{
    if count < more {
        lemma_first_word_decides(lines, count, more - 1);
    }
}

} // verus!

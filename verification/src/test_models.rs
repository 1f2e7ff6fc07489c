//! Locating the TinyLlama checkpoint that tests use.
//!
//! Resolution order: `$TINYLLAMA_DIR` when set (and then nothing else); else
//! the pinned snapshot of the Hugging Face cache, else the snapshot of that
//! cache whose directory name sorts first; else the models-chain directory.
//! Each candidate counts only if it holds the sentinel file.  The probing of
//! the environment and the file system is the caller's; the choice is here.

use vstd::prelude::*;
use vstd::string::*;
use crate::text::{chars_of, seq_starts_with};

verus! {

broadcast use vstd::string::group_string_axioms;

/// The Hugging Face repo id, in cache-directory form.
pub const MODEL_REPO_DIR: &'static str = "models--TinyLlama--TinyLlama-1.1B-Chat-v1.0";

/// The plain directory name, for the models-chain layout.
pub const MODEL_DIR_NAME: &'static str = "TinyLlama-1.1B-Chat-v1.0";

/// The snapshot every recorded measurement was taken against.
pub const PINNED_REVISION: &'static str = "fe8a4ea1ffedaf415f4da2f062534de366a451e6";

/// The file whose presence means "this really is an unpacked checkpoint".
pub const WEIGHTS_SENTINEL: &'static str = "model.safetensors";

/// The weaker sentinel, for tests that only need the config.
pub const CONFIG_SENTINEL: &'static str = "config.json";

/// What probing the machine found.
pub struct CheckpointProbe {
    /// `$TINYLLAMA_DIR`, if set, and whether it holds the sentinel
    pub override_dir: Option<(String, bool)>,
    /// The pinned snapshot directory, where a cache root is known, and
    /// whether it holds the sentinel
    pub pinned: Option<(String, bool)>,
    /// The snapshot directories that hold the sentinel, each with the bytes
    /// of its directory name
    pub snapshots: Vec<(String, Vec<u8>)>,
    /// The models-chain directory and whether it holds the sentinel
    pub chained: (String, bool),
}

/// `a` sorts strictly before `b`, byte by byte, a proper prefix first.
pub open spec fn bytes_lt(a: Seq<u8>, b: Seq<u8>) -> bool
    decreases a.len(),
{
    if a.len() == 0 {
        b.len() > 0
    } else if b.len() == 0 {
        false
    } else if a[0] != b[0] {
        a[0] < b[0]
    } else {
        bytes_lt(a.drop_first(), b.drop_first())
    }
}

/// Position of the first of the least names among the first `n`.
pub open spec fn least_upto(names: Seq<Seq<u8>>, n: int) -> int
    decreases n,
{
    if n <= 1 {
        0
    } else {
        let m = least_upto(names, n - 1);
        if bytes_lt(names[n - 1], names[m]) {
            n - 1
        } else {
            m
        }
    }
}

/// The pinned snapshot was found and holds the sentinel.
pub open spec fn pinned_ok(p: Option<(String, bool)>) -> bool {
    match p {
        Some((_, ok)) => ok,
        None => false,
    }
}

/// The pinned snapshot directory.
pub open spec fn pinned_dir(p: Option<(String, bool)>) -> Seq<char> {
    match p {
        Some((d, _)) => d@,
        None => Seq::empty(),
    }
}

/// The directory that resolution picks.
pub open spec fn resolve_spec(p: CheckpointProbe) -> Option<Seq<char>> {
    match p.override_dir {
        Some((d, ok)) => if ok {
            Some(d@)
        } else {
            None
        },
        None => {
            if pinned_ok(p.pinned) {
                Some(pinned_dir(p.pinned))
            } else if p.snapshots@.len() > 0 {
                Some(
                    p.snapshots@[least_upto(
                        p.snapshots@.map_values(|e: (String, Vec<u8>)| e.1@),
                        p.snapshots@.len() as int,
                    )].0@,
                )
            } else if p.chained.1 {
                Some(p.chained.0@)
            } else {
                None
            }
        },
    }
}

/// Whether `a` sorts strictly before `b`.
fn bytes_less(a: &Vec<u8>, b: &Vec<u8>) -> (r: bool)
    ensures
        r == bytes_lt(a@, b@),
{
    let mut i: usize = 0;
    assert(a@.skip(0) =~= a@);
    assert(b@.skip(0) =~= b@);
    while i < a.len() && i < b.len() && a[i] == b[i]
        invariant
            i <= a@.len(),
            i <= b@.len(),
            bytes_lt(a@, b@) == bytes_lt(a@.skip(i as int), b@.skip(i as int)),
        decreases a@.len() - i,
    {
        assert(a@.skip(i as int).drop_first() =~= a@.skip(i + 1));
        assert(b@.skip(i as int).drop_first() =~= b@.skip(i + 1));
        i = i + 1;
    }
    if i == a.len() {
        i < b.len()
    } else if i == b.len() {
        false
    } else {
        a[i] < b[i]
    }
}

fn copy_string(s: &String) -> (r: String)
    ensures
        r@ == s@,
{
    s.clone()
}

/// The checkpoint directory that the probe's findings resolve to.
pub fn tinyllama_dir(probe: &CheckpointProbe) -> (r: Option<String>)
    ensures
        match resolve_spec(*probe) {
            Some(d) => r is Some && r->0@ == d,
            None => r is None,
        },
{
    match &probe.override_dir {
        Some((d, ok)) => {
            if *ok {
                return Some(copy_string(d));
            } else {
                return None;
            }
        },
        None => {},
    }
    match &probe.pinned {
        Some((d, ok)) => {
            if *ok {
                return Some(copy_string(d));
            }
        },
        None => {},
    }
    let snaps = &probe.snapshots;
    if snaps.len() > 0 {
        let ghost names = snaps@.map_values(|e: (String, Vec<u8>)| e.1@);
        let mut best: usize = 0;
        let mut i: usize = 1;
        while i < snaps.len()
            invariant
                1 <= i <= snaps@.len(),
                names == snaps@.map_values(|e: (String, Vec<u8>)| e.1@),
                best == least_upto(names, i as int),
                best < i,
            decreases snaps@.len() - i,
        {
            assert(names[i as int] == snaps@[i as int].1@);
            assert(names[best as int] == snaps@[best as int].1@);
            if bytes_less(&snaps[i].1, &snaps[best].1) {
                best = i;
            }
            i = i + 1;
        }
        return Some(copy_string(&snaps[best].0));
    }
    if probe.chained.1 {
        Some(copy_string(&probe.chained.0))
    } else {
        None
    }
}

/// What `describe` says of a found checkpoint directory (shown as
/// `display`, with directory name `name`), or of none.
pub open spec fn describe_spec(found: Option<(String, Option<String>)>) -> Seq<char> {
    match found {
        None => "no TinyLlama checkpoint found (set TINYLLAMA_DIR, or place "@ + MODEL_DIR_NAME@
            + " under the models directory)"@,
        Some((display, name)) => display@ + " ("@ + (if name matches Some(n) && n@
            == PINNED_REVISION@ {
            "pinned revision"@
        } else {
            "NOT the pinned revision -- recorded numbers are not comparable"@
        }) + ")"@,
    }
}

/// Where the checkpoint was found and whether it is the pinned revision.
pub fn describe(found: Option<(String, Option<String>)>) -> (r: String)
    ensures
        r@ == describe_spec(found),
{
    match found {
        None => {
            let mut s = String::from_str(
                "no TinyLlama checkpoint found (set TINYLLAMA_DIR, or place ",
            );
            s.append(MODEL_DIR_NAME);
            s.append(" under the models directory)");
            s
        },
        Some((display, name)) => {
            let pinned = match &name {
                Some(n) => {
                    let a = chars_of(n.as_str());
                    let b = chars_of(PINNED_REVISION);
                    a.len() == b.len() && crate::text::matches_at(&a, &b, 0)
                },
                None => false,
            };
            proof {
                match name {
                    Some(n) => {
                        let a = n@;
                        let b = PINNED_REVISION@;
                        if a.len() == b.len() {
                            assert(a.subrange(0, b.len() as int) =~= a);
                        }
                    },
                    None => {},
                }
            }
            let mut s = display;
            s.append(" (");
            if pinned {
                s.append("pinned revision");
            } else {
                s.append("NOT the pinned revision -- recorded numbers are not comparable");
            }
            s.append(")");
            s
        },
    }
}


/// What `describe` reports of the directory that the probe resolves to: that
/// none was found when there is none, else that directory's path followed by
/// whether it is the pinned revision.
pub proof fn law_describe_reports_the_resolution(
    probe: CheckpointProbe,
    found: Option<(String, Option<String>)>,
)
    requires
        found is None <==> resolve_spec(probe) is None,
        found matches Some((d, _)) ==> resolve_spec(probe) matches Some(r) && d@ == r,
    ensures
        resolve_spec(probe) is None ==> seq_starts_with(
            describe_spec(found),
            "no TinyLlama checkpoint found"@,
        ),
        resolve_spec(probe) matches Some(r) ==> found matches Some((d, n)) && describe_spec(found) == r
            + " ("@ + (if n matches Some(x) && x@ == PINNED_REVISION@ {
            "pinned revision"@
        } else {
            "NOT the pinned revision -- recorded numbers are not comparable"@
        }) + ")"@,
{
    if resolve_spec(probe) is None {
        reveal_strlit("no TinyLlama checkpoint found");
        reveal_strlit("no TinyLlama checkpoint found (set TINYLLAMA_DIR, or place ");
        let a = "no TinyLlama checkpoint found (set TINYLLAMA_DIR, or place "@;
        let rest = MODEL_DIR_NAME@ + " under the models directory)"@;
        assert(describe_spec(found) =~= a + rest);
        assert((a + rest).subrange(0, 29) =~= "no TinyLlama checkpoint found"@);
    }
}

} // verus!

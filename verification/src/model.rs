//! The payload digest data model: joints, components, and the digest that
//! owns them, together with its well-formedness invariant and lookups.
//!
//! The joint and component maps are association lists keyed by identifier
//! strings; well-formedness demands the keys be distinct and every anchor
//! point lie within the coordinate limit.  `Joint.members` holds weak
//! references (lookup keys) into the component map.

use vstd::prelude::*;

use crate::geometry::Point3;
use crate::geometry::point_in_bounds;
use crate::geometry::point_within_limits;

verus! {

/// Errors surfaced by this library.
///
/// `IoError`: the digest file could not be read (raised by the caller that
/// performs the read).  `ParseError`: the digest text is malformed or does
/// not match the schema.  `NotFound`: a lookup key has no entry.
/// Each variant carries a human-readable message.
#[derive(Debug)]
pub enum DigestError {
    IoError(String),
    ParseError(String),
    NotFound(String),
}

impl DigestError {
    /// The message carried by this error.
    pub open spec fn spec_message(self) -> Seq<char> {
        match self {
            DigestError::IoError(m) => m@,
            DigestError::ParseError(m) => m@,
            DigestError::NotFound(m) => m@,
        }
    }

    /// Borrow the human-readable message.
    pub fn message(&self) -> (m: &String)
        ensures
            m@ == self.spec_message(),
    {
        match self {
            DigestError::IoError(m) => m,
            DigestError::ParseError(m) => m,
            DigestError::NotFound(m) => m,
        }
    }
}

/// One weld / assembly joint.
pub struct Joint {
    /// Display label; not guaranteed unique.
    pub joint_number: String,
    /// Design classification.
    pub joint_design: String,
    /// Spatial anchor, absent if unknown.
    pub center: Option<Point3>,
    /// Identifiers of member components, referencing the digest's
    /// component map.
    pub members: Vec<String>,
}

impl Joint {
    /// A joint is well formed when its anchor, if present, lies within the
    /// coordinate limit.
    pub open spec fn wf(self) -> bool {
        match self.center {
            Some(c) => point_in_bounds(c),
            None => true,
        }
    }
}

/// One physical part.
pub struct Component {
    pub design_id: String,
    pub part_number: String,
    pub description: String,
    /// Relative path of a renderable mesh asset; absent means the
    /// component is reference-only.
    pub geom_path: Option<String>,
    /// Spatial anchor for camera framing, absent if unknown.
    pub loc: Option<Point3>,
    /// Per-face locator points; reserved data, absent if unknown.
    pub faces: Option<Vec<Point3>>,
}

impl Component {
    /// A component is well formed when every anchor it carries lies within
    /// the coordinate limit.
    pub open spec fn wf(self) -> bool {
        &&& match self.loc {
            Some(c) => point_in_bounds(c),
            None => true,
        }
        &&& match self.faces {
            Some(fs) => forall|i: int| 0 <= i < fs@.len() ==> point_in_bounds(#[trigger] fs@[i]),
            None => true,
        }
    }
}

/// All identifier keys in an association list are distinct.
pub open spec fn unique_keys<T>(entries: Seq<(String, T)>) -> bool {
    forall|i: int, j: int|
        #![trigger entries[i], entries[j]]
        0 <= i < j < entries.len() ==> entries[i].0@ != entries[j].0@
}

/// First entry whose key equals `key`, if any.
pub open spec fn spec_lookup<T>(entries: Seq<(String, T)>, key: Seq<char>) -> Option<T>
    decreases entries.len(),
{
    if entries.len() == 0 {
        None
    } else if entries[0].0@ == key {
        Some(entries[0].1)
    } else {
        spec_lookup(entries.drop_first(), key)
    }
}

/// The root aggregate for one inspected payload: immutable reference data
/// once constructed.
pub struct PayloadDigest {
    /// Identifying metadata, display-only.
    pub name: String,
    /// Revision label, display-only.
    pub rev: String,
    /// Joint map: identifier keyed, keys unique, order irrelevant.
    pub joints: Vec<(String, Joint)>,
    /// Component map: identifier keyed, keys unique, order irrelevant.
    pub components: Vec<(String, Component)>,
}

impl PayloadDigest {
    /// Well-formedness: both maps have distinct keys and every entry is
    /// itself well formed.
    pub open spec fn wf(self) -> bool {
        &&& unique_keys(self.joints@)
        &&& unique_keys(self.components@)
        &&& forall|i: int| 0 <= i < self.joints@.len() ==> (#[trigger] self.joints@[i]).1.wf()
        &&& forall|i: int|
            0 <= i < self.components@.len() ==> (#[trigger] self.components@[i]).1.wf()
    }

    /// Number of joints in the digest.
    pub fn joint_count(&self) -> (n: usize)
        ensures
            n == self.joints@.len(),
    {
        self.joints.len()
    }

    /// Number of components in the digest.
    pub fn component_count(&self) -> (n: usize)
        ensures
            n == self.components@.len(),
    {
        self.components.len()
    }

    /// Look a component up by identifier; a missing identifier yields
    /// `NotFound`, never a crash.
    pub fn get_component<'a>(&'a self, id: &String) -> (r: Result<&'a Component, DigestError>)
        ensures
            match r {
                Ok(c) => spec_lookup(self.components@, id@) == Some(*c),
                Err(e) => e is NotFound && spec_lookup(self.components@, id@) is None,
            },
    {
        lookup_entry(&self.components, id)
    }

    /// Look a joint up by identifier; a missing identifier yields
    /// `NotFound`, never a crash.
    pub fn get_joint<'a>(&'a self, id: &String) -> (r: Result<&'a Joint, DigestError>)
        ensures
            match r {
                Ok(j) => spec_lookup(self.joints@, id@) == Some(*j),
                Err(e) => e is NotFound && spec_lookup(self.joints@, id@) is None,
            },
    {
        lookup_entry(&self.joints, id)
    }
}

/// If no key among the first `k` entries matches, the lookup outcome is
/// decided by the remaining entries.
proof fn lemma_lookup_skip<T>(entries: Seq<(String, T)>, key: Seq<char>, k: int)
    requires
        0 <= k <= entries.len(),
        forall|i: int| 0 <= i < k ==> (#[trigger] entries[i]).0@ != key,
    ensures
        spec_lookup(entries, key) == spec_lookup(entries.skip(k), key),
    decreases k,
{
    if k > 0 {
        lemma_lookup_skip(entries.drop_first(), key, k - 1);
        assert(entries.drop_first().skip(k - 1) =~= entries.skip(k));
    } else {
        assert(entries.skip(0) =~= entries);
    }
}

/// A lookup that fails finds no matching key anywhere.
pub proof fn lemma_lookup_none<T>(entries: Seq<(String, T)>, key: Seq<char>)
    requires
        spec_lookup(entries, key) is None,
    ensures
        forall|k: int| 0 <= k < entries.len() ==> (#[trigger] entries[k]).0@ != key,
    decreases entries.len(),
{
    if entries.len() > 0 {
        lemma_lookup_none(entries.drop_first(), key);
        assert forall|k: int| 0 <= k < entries.len() implies (#[trigger] entries[k]).0@
            != key by {
            if k > 0 {
                assert(entries[k] == entries.drop_first()[k - 1]);
            }
        }
    }
}

/// Append an entry to an association list, refusing a duplicate key, so
/// that key uniqueness is preserved.
pub fn push_unique<T>(entries: &mut Vec<(String, T)>, id: String, value: T) -> (r: Result<
    (),
    DigestError,
>)
    requires
        unique_keys(old(entries)@),
    ensures
        match r {
            Ok(()) => final(entries)@ == old(entries)@.push((id, value)) && unique_keys(
                final(entries)@,
            ),
            Err(e) => e is ParseError && final(entries)@ == old(entries)@ && spec_lookup(
                old(entries)@,
                id@,
            ) is Some,
        },
{
    if contains_key(entries, &id) {
        let mut m = String::from_str("duplicate identifier key in digest map: ");
        m.append(id.as_str());
        return Err(DigestError::ParseError(m));
    }
    let ghost prev = entries@;
    let ghost id_view = id@;
    entries.push((id, value));
    proof {
        lemma_lookup_none(prev, id_view);
        assert forall|a: int, b: int|
            #![trigger entries@[a], entries@[b]]
            0 <= a < b < entries@.len() implies entries@[a].0@ != entries@[b].0@ by {
            if b < prev.len() {
                assert(entries@[a] == prev[a]);
                assert(entries@[b] == prev[b]);
            } else {
                assert(entries@[a] == prev[a]);
                assert(entries@[b].0@ == id_view);
            }
        }
    }
    Ok(())
}

/// Linear scan for the first entry whose key equals `id`.
fn lookup_entry<'a, T>(entries: &'a Vec<(String, T)>, id: &String) -> (r: Result<
    &'a T,
    DigestError,
>)
    ensures
        match r {
            Ok(v) => spec_lookup(entries@, id@) == Some(*v),
            Err(e) => e is NotFound && spec_lookup(entries@, id@) is None,
        },
{
    let n = entries.len();
    let mut k: usize = 0;
    while k < n
        invariant
            n == entries@.len(),
            0 <= k <= n,
            forall|i: int| 0 <= i < k ==> (#[trigger] entries@[i]).0@ != id@,
        decreases n - k,
    {
        if entries[k].0 == *id {
            proof {
                lemma_lookup_skip(entries@, id@, k as int);
                assert(entries@.skip(k as int)[0] == entries@[k as int]);
            }
            return Ok(&entries[k].1);
        }
        k += 1;
    }
    proof {
        lemma_lookup_skip(entries@, id@, n as int);
        assert(entries@.skip(n as int).len() == 0);
    }
    Err(DigestError::NotFound(not_found_message()))
}

/// Message carried by `NotFound` lookup failures.
fn not_found_message() -> (m: String) {
    String::from_str("unknown identifier: no entry with this key")
}

/// Does any entry carry this key?
pub fn contains_key<T>(entries: &Vec<(String, T)>, id: &String) -> (b: bool)
    ensures
        b == (spec_lookup(entries@, id@) is Some),
{
    let n = entries.len();
    let mut k: usize = 0;
    while k < n
        invariant
            n == entries@.len(),
            0 <= k <= n,
            forall|i: int| 0 <= i < k ==> (#[trigger] entries@[i]).0@ != id@,
        decreases n - k,
    {
        if entries[k].0 == *id {
            proof {
                lemma_lookup_skip(entries@, id@, k as int);
                assert(entries@.skip(k as int)[0] == entries@[k as int]);
            }
            return true;
        }
        k += 1;
    }
    proof {
        lemma_lookup_skip(entries@, id@, n as int);
        assert(entries@.skip(n as int).len() == 0);
    }
    false
}

} // verus!

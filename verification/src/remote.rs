//! The engine's picture of remote objects: their kinds, the raw shape a
//! fetch hands over, and the validated form the engine registers.

use crate::errors::FsError;
use vstd::prelude::*;

verus! {

/// Classification of a remote object.  The kind governs whether the
/// entry projects as a directory or as a leaf file and which endpoint
/// loads its children.
#[derive(Clone, Copy, Debug, PartialEq, Eq, Structural)]
pub enum ResourceKind {
    Product,
    Release,
    Feature,
    Epic,
}

/// Which class of directory a load is performed for: the namespace
/// root lists products, a product lists its releases, and a release
/// lists its features and epics.
#[derive(Clone, Copy, Debug, PartialEq, Eq, Structural)]
pub enum DirClass {
    Root,
    Product,
    Release,
}

/// Products and releases project as directories; features and epics as
/// leaf files whose content is the description body.
pub open spec fn kind_is_directory(kind: ResourceKind) -> bool {
    kind == ResourceKind::Product || kind == ResourceKind::Release
}

/// The kinds a directory of class `dir` may legitimately list: the
/// root lists products, a product its releases, a release its features
/// and epics.  Anything else in a listing is malformed backend data.
pub open spec fn admissible_child_kind(dir: DirClass, kind: ResourceKind) -> bool {
    match dir {
        DirClass::Root => kind == ResourceKind::Product,
        DirClass::Product => kind == ResourceKind::Release,
        DirClass::Release => kind == ResourceKind::Feature || kind == ResourceKind::Epic,
    }
}

impl ResourceKind {
    /// Executable form of [`kind_is_directory`].
    pub fn is_directory(&self) -> (r: bool)
        ensures
            r == kind_is_directory(*self),
    {
        match self {
            ResourceKind::Product => true,
            ResourceKind::Release => true,
            ResourceKind::Feature => false,
            ResourceKind::Epic => false,
        }
    }

    /// The directory class of a directory-kind object.
    pub fn dir_class(&self) -> (r: Option<DirClass>)
        ensures
            kind_is_directory(*self) <==> r is Some,
            *self == ResourceKind::Product ==> r == Some(DirClass::Product),
            *self == ResourceKind::Release ==> r == Some(DirClass::Release),
    {
        match self {
            ResourceKind::Product => Some(DirClass::Product),
            ResourceKind::Release => Some(DirClass::Release),
            ResourceKind::Feature => None,
            ResourceKind::Epic => None,
        }
    }
}

/// A child object exactly as the backend handed it over, before
/// required-field validation: every field may be absent.  The embedding
/// program converts the remote representation into this shape and the
/// engine decides whether it is well formed.
#[derive(Debug)]
pub struct RawObject {
    /// Remote-assigned id, unique within its kind only.
    pub id: Option<String>,
    /// Display name; becomes the entry name in the listing.
    pub name: Option<String>,
    /// Object kind, if the payload carried a recognizable one.
    pub kind: Option<ResourceKind>,
    /// Description body; leaf content and the source of the leaf size.
    pub body: Option<Vec<u8>>,
}

/// A validated remote object: all required fields present and the kind
/// admissible under the directory it was listed in.
#[derive(Debug)]
pub struct RemoteObject {
    pub id: String,
    pub name: String,
    pub kind: ResourceKind,
    /// Description body; empty for directory kinds, whose content is
    /// never read.
    pub body: Vec<u8>,
}

/// What a well-formed raw child of a `dir`-class directory must carry:
/// id, name and kind present, the kind admissible for `dir`, and a
/// body whenever the object is a leaf.
pub open spec fn raw_object_valid(dir: DirClass, raw: RawObject) -> bool {
    &&& raw.id is Some
    &&& raw.name is Some
    &&& raw.kind matches Some(kind) && admissible_child_kind(dir, kind)
    &&& (raw.kind matches Some(kind) && !kind_is_directory(kind) ==> raw.body is Some)
}

/// The body content a validated object carries: directory kinds keep
/// no content, leaves keep their description body.
pub open spec fn validated_body(raw: RawObject) -> Seq<u8>
    recommends
        raw.kind is Some,
{
    if kind_is_directory(raw.kind->0) {
        Seq::<u8>::empty()
    } else {
        raw.body->0@
    }
}

/// Required-field validation of one fetched child.  Returns the
/// validated object exactly when [`raw_object_valid`] holds, and
/// `BackendFailure` otherwise: malformed backend data is an I/O
/// failure, never a crash.
pub fn validate_object(dir: DirClass, raw: &RawObject) -> (r: Result<RemoteObject, FsError>)
    ensures
        raw_object_valid(dir, *raw) <==> r is Ok,
        r matches Ok(obj) ==> obj.id@ == raw.id->0@ && obj.name@ == raw.name->0@
            && obj.kind == raw.kind->0 && obj.body@ == validated_body(*raw),
        r matches Err(e) ==> e == FsError::BackendFailure,
{
    let (id, name, kind) = match (&raw.id, &raw.name, &raw.kind) {
        (Some(id), Some(name), Some(kind)) => (id.clone(), name.clone(), *kind),
        _ => {
            return Err(FsError::BackendFailure);
        },
    };
    let dir_ok = match (dir, kind) {
        (DirClass::Root, ResourceKind::Product) => true,
        (DirClass::Product, ResourceKind::Release) => true,
        (DirClass::Release, ResourceKind::Feature) => true,
        (DirClass::Release, ResourceKind::Epic) => true,
        _ => false,
    };
    if !dir_ok {
        return Err(FsError::BackendFailure);
    }
    if kind.is_directory() {
        Ok(RemoteObject { id, name, kind, body: Vec::new() })
    } else {
        match &raw.body {
            Some(body) => {
                let mut copy: Vec<u8> = Vec::new();
                let n = body.len();
                let mut i: usize = 0;
                while i < n
                    invariant
                        n == body@.len(),
                        i <= n,
                        copy@ == body@.take(i as int),
                    decreases n - i,
                {
                    copy.push(body[i]);
                    proof {
                        assert(copy@ =~= body@.take(i + 1));
                    }
                    i = i + 1;
                }
                proof {
                    assert(body@.take(n as int) =~= body@);
                }
                Ok(RemoteObject { id, name, kind, body: copy })
            },
            None => Err(FsError::BackendFailure),
        }
    }
}

} // verus!

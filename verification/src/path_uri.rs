//! Stateless conversion between root-anchored filesystem paths and
//! backend resource URIs of the shape `<protocol>://<resource-path>`.
//!
//! A path `/data/x/y` splits into the protocol segment `data` (the
//! first segment after the root) and the resource path `x/y`; the URI
//! is `data://x/y`.  Only a recognized protocol segment is accepted:
//! exactly `data`, or anything beginning with `dropbox` or `s3`.

use crate::errors::FsError;
use vstd::prelude::*;

verus! {

/// The path with its leading root separator dropped, if it has one.
pub open spec fn strip_root(p: Seq<char>) -> Seq<char> {
    if p.len() > 0 && p[0] == '/' {
        p.skip(1)
    } else {
        p
    }
}

/// Index of the first occurrence of `c` in `s`, or -1 if `c` does not
/// occur.
pub open spec fn find_char(s: Seq<char>, c: char) -> int
    decreases s.len(),
{
    if s.len() == 0 {
        -1
    } else if s[0] == c {
        0
    } else {
        let r = find_char(s.skip(1), c);
        if r < 0 {
            -1
        } else {
            r + 1
        }
    }
}

/// `find_char` returns exactly the first occurrence: the character is
/// there, and nowhere earlier; -1 means it is nowhere at all.
pub proof fn lemma_find_char(s: Seq<char>, c: char)
    ensures
        find_char(s, c) >= -1,
        find_char(s, c) == -1 ==> (forall|i: int| 0 <= i < s.len() ==> s[i] != c),
        find_char(s, c) >= 0 ==> find_char(s, c) < s.len() && s[find_char(s, c)] == c && (forall|
            i: int,
        | 0 <= i < find_char(s, c) ==> s[i] != c),
    decreases s.len(),
{
    if s.len() > 0 && s[0] != c {
        lemma_find_char(s.skip(1), c);
        let r = find_char(s.skip(1), c);
        if r == -1 {
            assert forall|i: int| 0 <= i < s.len() implies s[i] != c by {
                if i >= 1 {
                    assert(s.skip(1)[i - 1] == s[i]);
                }
            }
        } else {
            assert(s[r + 1] == s.skip(1)[r]);
            assert forall|i: int| 0 <= i < r + 1 implies s[i] != c by {
                if i >= 1 {
                    assert(s.skip(1)[i - 1] == s[i]);
                }
            }
        }
    }
}

/// The protocol segment of a path: the first segment once the root is
/// stripped.
pub open spec fn protocol_of(p: Seq<char>) -> Seq<char> {
    let s = strip_root(p);
    let f = find_char(s, '/');
    if f < 0 {
        s
    } else {
        s.take(f)
    }
}

/// The resource path of a path: everything after the protocol segment's
/// separator, empty when there is no further segment.
pub open spec fn resource_of(p: Seq<char>) -> Seq<char> {
    let s = strip_root(p);
    let f = find_char(s, '/');
    if f < 0 {
        Seq::<char>::empty()
    } else {
        s.skip(f + 1)
    }
}

/// `s` begins with `prefix`.
pub open spec fn seq_starts_with(s: Seq<char>, prefix: Seq<char>) -> bool {
    s.len() >= prefix.len() && s.subrange(0, prefix.len() as int) == prefix
}

/// The protocol tags the engine recognizes: exactly `data`, or a
/// `dropbox`- or `s3`-prefixed tag.
pub open spec fn recognized_protocol(p: Seq<char>) -> bool {
    ||| p == "data"@
    ||| seq_starts_with(p, "dropbox"@)
    ||| seq_starts_with(p, "s3"@)
}

/// A path is wired to a backend exactly when its protocol segment is
/// recognized.
pub open spec fn valid_connector_spec(p: Seq<char>) -> bool {
    recognized_protocol(protocol_of(p))
}

/// The URI a path translates to: `<protocol>://<resource-path>`.
pub open spec fn uri_of_path(p: Seq<char>) -> Seq<char> {
    protocol_of(p) + "://"@ + resource_of(p)
}

/// The protocol delimiter `://` sits at index `i` of `u`.
pub open spec fn delim_at(u: Seq<char>, i: int) -> bool {
    &&& 0 <= i
    &&& i + 3 <= u.len()
    &&& u[i] == ':'
    &&& u[i + 1] == '/'
    &&& u[i + 2] == '/'
}

/// Index of the first protocol delimiter in `u`, or -1 if none.
pub open spec fn find_delim(u: Seq<char>) -> int
    decreases u.len(),
{
    if u.len() < 3 {
        -1
    } else if u[0] == ':' && u[1] == '/' && u[2] == '/' {
        0
    } else {
        let r = find_delim(u.skip(1));
        if r < 0 {
            -1
        } else {
            r + 1
        }
    }
}

/// `find_delim` returns exactly the first delimiter position, or -1
/// when no position holds one.
pub proof fn lemma_find_delim(u: Seq<char>)
    ensures
        find_delim(u) >= -1,
        find_delim(u) == -1 ==> (forall|i: int| !delim_at(u, i)),
        find_delim(u) >= 0 ==> delim_at(u, find_delim(u)) && (forall|i: int|
            0 <= i < find_delim(u) ==> !delim_at(u, i)),
    decreases u.len(),
{
    if u.len() < 3 {
        assert(forall|i: int| delim_at(u, i) ==> i + 3 <= u.len() && i >= 0);
    } else if u[0] == ':' && u[1] == '/' && u[2] == '/' {
    } else {
        lemma_find_delim(u.skip(1));
        assert(forall|i: int| 0 <= i < u.skip(1).len() ==> u.skip(1)[i] == u[i + 1]);
        assert forall|i: int| 1 <= i && delim_at(u, i) implies delim_at(u.skip(1), i - 1) by {
            assert(u.skip(1)[i - 1] == u[i]);
            assert(u.skip(1)[i] == u[i + 1]);
            assert(u.skip(1)[i + 1] == u[i + 2]);
        }
        assert forall|i: int| delim_at(u.skip(1), i) implies delim_at(u, i + 1) by {
            assert(u.skip(1)[i] == u[i + 1]);
            assert(u.skip(1)[i + 1] == u[i + 2]);
            assert(u.skip(1)[i + 2] == u[i + 3]);
        }
        if find_delim(u.skip(1)) == -1 {
            assert forall|i: int| !delim_at(u, i) by {
                if 1 <= i && delim_at(u, i) {
                    assert(delim_at(u.skip(1), i - 1));
                }
            }
        }
    }
}

/// The path a URI translates back to: root-anchored protocol segment,
/// then the resource path.  A URI without a delimiter is anchored
/// whole.
pub open spec fn path_of_uri(u: Seq<char>) -> Seq<char> {
    let f = find_delim(u);
    if f < 0 {
        "/"@ + u
    } else {
        let proto = u.take(f);
        let rest = u.skip(f + 3);
        if rest.len() == 0 {
            "/"@ + proto
        } else {
            "/"@ + proto + "/"@ + rest
        }
    }
}

/// First index `>= from` holding `c` in `s`, or the length of `s` when
/// `c` does not occur there.
fn char_position(s: &str, c: char, from: usize) -> (r: usize)
    requires
        from <= s@.len(),
    ensures
        from <= r <= s@.len(),
        forall|j: int| from <= j < r ==> s@[j] != c,
        r < s@.len() ==> s@[r as int] == c,
{
    let n = s.unicode_len();
    let mut i = from;
    while i < n
        invariant
            from <= i <= n,
            n == s@.len(),
            forall|j: int| from <= j < i ==> s@[j] != c,
        decreases n - i,
    {
        if s.get_char(i) == c {
            return i;
        }
        i = i + 1;
    }
    i
}

/// Splits a path into its protocol segment and resource path, both as
/// owned strings.
fn split_path(path: &str) -> (r: (String, String))
    ensures
        r.0@ == protocol_of(path@),
        r.1@ == resource_of(path@),
{
    let n = path.unicode_len();
    let start: usize = if n > 0 && path.get_char(0) == '/' {
        1
    } else {
        0
    };
    let slash = char_position(path, '/', start);
    let proto = String::from_str(path.substring_char(start, slash));
    let rest = if slash < n {
        String::from_str(path.substring_char(slash + 1, n))
    } else {
        String::new()
    };
    proof {
        let s = strip_root(path@);
        lemma_find_char(s, '/');
        assert(s =~= path@.subrange(start as int, n as int));
        if slash < n {
            assert(s[slash - start] == '/');
            assert(find_char(s, '/') == slash - start);
            assert(proto@ =~= s.take(slash - start));
            assert(rest@ =~= s.skip(slash - start + 1));
        } else {
            assert(forall|i: int| 0 <= i < s.len() ==> s[i] != '/');
            assert(find_char(s, '/') == -1);
            assert(proto@ =~= s);
            assert(rest@ =~= Seq::<char>::empty());
        }
    }
    (proto, rest)
}

/// The two views are equal.
fn str_eq(a: &str, b: &str) -> (r: bool)
    ensures
        r == (a@ == b@),
{
    let sa = String::from_str(a);
    let sb = String::from_str(b);
    sa == sb
}

/// Executable form of [`seq_starts_with`] on string slices.
fn str_starts_with(s: &str, prefix: &str) -> (r: bool)
    ensures
        r == seq_starts_with(s@, prefix@),
{
    let n = prefix.unicode_len();
    if s.unicode_len() < n {
        return false;
    }
    str_eq(s.substring_char(0, n), prefix)
}

/// Executable form of [`recognized_protocol`].
fn recognized_protocol_exec(p: &str) -> (r: bool)
    ensures
        r == recognized_protocol(p@),
{
    str_eq(p, "data") || str_starts_with(p, "dropbox") || str_starts_with(p, "s3")
}

/// True only if the first segment of the path is a recognized backend
/// protocol tag; fails closed on anything else.
pub fn valid_connector(path: &str) -> (r: bool)
    ensures
        r == valid_connector_spec(path@),
{
    let (proto, _rest) = split_path(path);
    recognized_protocol_exec(proto.as_str())
}

/// Translates a root-anchored path into a backend URI.  Succeeds with
/// `<protocol>://<resource-path>` exactly when the path carries a
/// recognized protocol segment, and fails with `PathError` otherwise.
pub fn path_to_uri(path: &str) -> (r: Result<String, FsError>)
    ensures
        r is Ok <==> valid_connector_spec(path@),
        r matches Ok(uri) ==> uri@ == uri_of_path(path@),
        r matches Err(e) ==> e == FsError::PathError,
{
    let (proto, rest) = split_path(path);
    if !recognized_protocol_exec(proto.as_str()) {
        return Err(FsError::PathError);
    }
    let mut uri = proto;
    uri.append("://");
    uri.append(rest.as_str());
    Ok(uri)
}

/// Translates a backend URI back into a root-anchored path: the
/// inverse of [`path_to_uri`], splitting on the first protocol
/// delimiter.
pub fn uri_to_path(uri: &str) -> (r: String)
    ensures
        r@ == path_of_uri(uri@),
{
    let n = uri.unicode_len();
    let d = delim_position(uri);
    proof {
        lemma_find_delim(uri@);
    }
    if d == n {
        proof {
            if find_delim(uri@) >= 0 {
                assert(delim_at(uri@, find_delim(uri@)));
            }
            assert(find_delim(uri@) == -1);
        }
        let mut out = String::from_str("/");
        out.append(uri);
        out
    } else {
        proof {
            assert(delim_at(uri@, d as int));
            assert(find_delim(uri@) == d);
        }
        let proto = uri.substring_char(0, d);
        let rest = uri.substring_char(d + 3, n);
        let mut out = String::from_str("/");
        out.append(proto);
        if rest.unicode_len() > 0 {
            out.append("/");
            out.append(rest);
        }
        out
    }
}

/// First index of `://` in `u`, or the length of `u` when it holds no
/// delimiter.
fn delim_position(u: &str) -> (r: usize)
    ensures
        r <= u@.len(),
        forall|j: int| 0 <= j < r ==> !delim_at(u@, j),
        r < u@.len() ==> delim_at(u@, r as int),
{
    let n = u.unicode_len();
    let mut i: usize = 0;
    while n >= 3 && i <= n - 3
        invariant
            i <= n,
            n == u@.len(),
            forall|j: int| 0 <= j < i ==> !delim_at(u@, j),
        decreases n - i,
    {
        if u.get_char(i) == ':' && u.get_char(i + 1) == '/' && u.get_char(i + 2) == '/' {
            return i;
        }
        i = i + 1;
    }
    proof {
        assert(forall|j: int| i <= j < n ==> j + 3 > n && !delim_at(u@, j));
    }
    n
}

/// Round trip: a root-anchored path with a recognized protocol segment
/// translates to a URI and back to itself.  The one family of paths
/// left out is `/<protocol>/` with a trailing separator and an empty
/// resource path, whose round trip drops that separator.
pub proof fn lemma_uri_path_round_trip(p: Seq<char>)
    requires
        p.len() > 0,
        p[0] == '/',
        valid_connector_spec(p),
        !(p.last() == '/' && resource_of(p).len() == 0),
    ensures
        path_of_uri(uri_of_path(p)) == p,
{
    reveal_strlit("/");
    reveal_strlit("://");
    reveal_strlit("data");
    reveal_strlit("dropbox");
    reveal_strlit("s3");
    let s = strip_root(p);
    let f = find_char(s, '/');
    lemma_find_char(s, '/');
    let proto = protocol_of(p);
    let rest = resource_of(p);
    assert(proto.len() > 0);
    assert(forall|i: int| 0 <= i < proto.len() ==> proto[i] != '/');
    let u = uri_of_path(p);
    assert(u.len() == proto.len() + 3 + rest.len());
    assert(u[proto.len() as int] == ':');
    assert(u[proto.len() as int + 1] == '/');
    assert(u[proto.len() as int + 2] == '/');
    assert(delim_at(u, proto.len() as int));
    assert forall|j: int| 0 <= j < proto.len() implies !delim_at(u, j) by {
        if j + 1 < proto.len() {
            assert(u[j + 1] == proto[j + 1]);
        } else {
            assert(j + 1 == proto.len());
            assert(u[j + 1] == ':');
        }
    }
    lemma_find_delim(u);
    assert(find_delim(u) == proto.len());
    let back = path_of_uri(u);
    assert(u.take(proto.len() as int) =~= proto);
    assert(u.skip(proto.len() as int + 3) =~= rest);
    if rest.len() == 0 {
        if f >= 0 {
            assert(s.len() == f + 1);
            assert(p.last() == s[f]);
            assert(false);
        }
        assert(proto =~= s);
        assert(back =~= "/"@ + proto);
        assert(back =~= p);
    } else {
        assert(f >= 0);
        assert(back =~= "/"@ + proto + "/"@ + rest);
        assert forall|i: int| 0 <= i < p.len() implies back[i] == p[i] by {
            if i == 0 {
            } else if i - 1 < f {
                assert(back[i] == proto[i - 1]);
                assert(p[i] == s[i - 1]);
            } else if i - 1 == f {
                assert(back[i] == '/');
                assert(p[i] == s[f]);
            } else {
                assert(back[i] == rest[i - 2 - f]);
                assert(p[i] == s[i - 1]);
            }
        }
        assert(back =~= p);
    }
}

} // verus!

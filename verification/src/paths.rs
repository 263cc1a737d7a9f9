//! Pure path handling: lexical cleaning, home-marker expansion, joining, and
//! base names. Paths are plain strings; nothing here touches the filesystem.

use vstd::prelude::*;

verus! {

/// A path resolution failure: either a leading `~` could not be expanded
/// because no home directory is known, or no store root was supplied at all.
#[derive(PartialEq, Eq, Structural, Clone, Copy, Debug)]
pub enum ResolveError {
    HomeUnresolvable,
    RootUnresolvable,
}

/// The lexical normal form of a path. The normalization itself is done by an
/// outside routine; this names its result.
pub uninterp spec fn cleaned(path: Seq<char>) -> Seq<char>;

/// Relies on `path_clean::clean`: lexical normalization (multiple slashes
/// reduced, `.` elements removed, `..` elements resolved against the segment
/// before them, `/..` at the start of a rooted path replaced by `/`), a pure
/// function of the path text alone. An empty result is replaced by `.`, so
/// the result is never empty; none of the rules applies to a path already in
/// normal form, so cleaning its own result changes nothing; and the root
/// component of a rooted path is never removed, so a path with a leading
/// separator keeps it.
#[verifier::external_body]
pub(crate) fn clean_path(path: &str) -> (r: String)
    ensures
        r@ == cleaned(path@),
        r@.len() > 0,
        cleaned(r@) == r@,
        path@.len() > 0 && path@[0] == '/' ==> r@[0] == '/',
{
    path_clean::clean(path).to_string_lossy().into_owned()
}

/// The text of an optional path, the empty sequence when absent.
pub open spec fn opt_str_view(o: Option<String>) -> Seq<char> {
    match o {
        Some(s) => s@,
        None => Seq::empty(),
    }
}

/// Whether a declared path begins with the home-directory marker.
pub open spec fn has_home_marker(path: Seq<char>) -> bool {
    path.len() > 0 && path[0] == '~'
}

/// A declared path with a leading home marker replaced by the home directory;
/// a path without the marker is unchanged.
pub open spec fn expanded(path: Seq<char>, home: Seq<char>) -> Seq<char> {
    if has_home_marker(path) {
        home + path.skip(1)
    } else {
        path
    }
}

/// Replaces a leading `~` with the home directory. Fails exactly when the
/// path needs expansion and no home directory is available.
pub fn expand_home(path: &str, home: &Option<String>) -> (r: Result<String, ResolveError>)
    ensures
        r is Ok <==> (!has_home_marker(path@) || home is Some),
        r matches Ok(s) ==> s@ == expanded(path@, opt_str_view(*home)),
        r matches Err(e) ==> e == ResolveError::HomeUnresolvable,
{
    let n = path.unicode_len();
    if n > 0 && path.get_char(0) == '~' {
        match home {
            Some(h) => {
                let rest = path.substring_char(1, n);
                let joined_home = h.clone().concat(rest);
                proof {
                    assert(joined_home@ =~= expanded(path@, opt_str_view(*home)));
                }
                Ok(joined_home)
            },
            None => Err(ResolveError::HomeUnresolvable),
        }
    } else {
        Ok(path.to_owned())
    }
}

/// A path joined under a base directory: an absolute path stands on its own,
/// anything else is appended to the base with a single separator.
pub open spec fn joined(base: Seq<char>, rel: Seq<char>) -> Seq<char> {
    if rel.len() > 0 && rel[0] == '/' {
        rel
    } else if base.len() == 0 {
        rel
    } else if base[base.len() - 1] == '/' {
        base + rel
    } else {
        base + seq!['/'] + rel
    }
}

/// Joins `rel` under `base` as `joined` describes.
pub fn join_paths(base: &str, rel: &str) -> (r: String)
    ensures
        r@ == joined(base@, rel@),
{
    let bn = base.unicode_len();
    let rn = rel.unicode_len();
    if rn > 0 && rel.get_char(0) == '/' {
        rel.to_owned()
    } else if bn == 0 {
        rel.to_owned()
    } else if base.get_char(bn - 1) == '/' {
        let r = base.to_owned().concat(rel);
        proof {
            assert(r@ =~= joined(base@, rel@));
        }
        r
    } else {
        let sep = "/";
        proof {
            reveal_strlit("/");
            assert(sep@ =~= seq!['/']);
        }
        let r = base.to_owned().concat(sep).concat(rel);
        proof {
            assert(r@ =~= joined(base@, rel@));
        }
        r
    }
}

/// The longest suffix of a path that contains no separator: the name of the
/// object the path points at, empty for the root or a path ending in `/`.
pub open spec fn base_name_of(path: Seq<char>) -> Seq<char>
    decreases path.len(),
{
    if path.len() == 0 || path.last() == '/' {
        Seq::empty()
    } else {
        base_name_of(path.drop_last()).push(path.last())
    }
}

/// The base name of a path, or `None` when the path has none (it is empty or
/// ends in a separator).
pub fn base_name(path: &str) -> (r: Option<String>)
    ensures
        r is Some <==> base_name_of(path@).len() > 0,
        r matches Some(s) ==> s@ == base_name_of(path@),
{
    let n = path.unicode_len();
    let mut j = n;
    proof {
        assert(path@.take(n as int) =~= path@);
        assert(path@ + path@.skip(n as int) =~= path@);
    }
    while j > 0 && path.get_char(j - 1) != '/'
        invariant
            0 <= j <= n,
            n == path@.len(),
            base_name_of(path@) == base_name_of(path@.take(j as int)) + path@.skip(j as int),
        decreases j,
    {
        proof {
            let c = path@[j as int - 1];
            let pj = path@.take(j as int);
            assert(pj.last() == c);
            assert(pj.drop_last() =~= path@.take(j as int - 1));
            assert(base_name_of(pj) == base_name_of(path@.take(j as int - 1)).push(c));
            assert(base_name_of(path@.take(j as int - 1)).push(c) + path@.skip(j as int)
                =~= base_name_of(path@.take(j as int - 1)) + path@.skip(j as int - 1));
        }
        j = j - 1;
    }
    proof {
        if j == 0 {
            assert(path@.take(0) =~= Seq::<char>::empty());
            assert(base_name_of(path@) =~= path@.skip(0));
            assert(path@.skip(0) =~= path@);
        } else {
            assert(path@.take(j as int).last() == '/');
            assert(base_name_of(path@.take(j as int)) =~= Seq::<char>::empty());
            assert(base_name_of(path@) =~= path@.skip(j as int));
        }
    }
    if j == n {
        None
    } else {
        Some(path.substring_char(j, n).to_owned())
    }
}

/// Picks the store root: an explicitly declared root wins, otherwise the
/// environment-supplied one; fails exactly when neither is present.
pub fn choose_root(declared: &Option<String>, env_root: &Option<String>) -> (r: Result<
    String,
    ResolveError,
>)
    ensures
        r is Ok <==> (declared is Some || env_root is Some),
        r matches Ok(s) ==> s@ == (if declared is Some {
            opt_str_view(*declared)
        } else {
            opt_str_view(*env_root)
        }),
        r matches Err(e) ==> e == ResolveError::RootUnresolvable,
{
    match declared {
        Some(d) => Ok(d.clone()),
        None => match env_root {
            Some(e) => Ok(e.clone()),
            None => Err(ResolveError::RootUnresolvable),
        },
    }
}

/// A declared target resolved for use against the filesystem: the home marker
/// expanded, then the path lexically cleaned. Fails exactly when the target
/// needs a home directory and none is available.
pub fn resolve_target(target: &str, home: &Option<String>) -> (r: Result<String, ResolveError>)
    ensures
        r is Ok <==> (!has_home_marker(target@) || home is Some),
        r matches Ok(s) ==> s@ == cleaned(expanded(target@, opt_str_view(*home)))
            && cleaned(s@) == s@,
        r matches Err(e) ==> e == ResolveError::HomeUnresolvable,
{
    match expand_home(target, home) {
        Ok(e) => Ok(clean_path(e.as_str())),
        Err(e) => Err(e),
    }
}

} // verus!

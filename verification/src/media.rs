//! Media files (icons, banners) that repository and pack configurations
//! reference: which names are acceptable, and which local files are stale.
use vstd::prelude::*;

use crate::models::{contains_str, str_views};
use crate::download::{url_join, url_resolved};

verus! {

/// A media reference is a plain file name inside the media folder: no `/`,
/// no `\`, and not `..`, so that a remote configuration cannot escape it.
pub open spec fn is_valid_media_name(name: Seq<char>) -> bool {
    !name.contains('/') && !name.contains('\\') && name != seq!['.', '.']
}

/// Whether a media reference is a plain file name (see [`is_valid_media_name`]).
pub fn valid_media_name(name: &str) -> (r: bool)
    ensures
        r == is_valid_media_name(name@),
{
    let cs = crate::text::chars_of(name);
    let mut i: usize = 0;
    while i < cs.len()
        invariant
            cs@ == name@,
            i <= cs.len(),
            forall|j: int| 0 <= j < i ==> name@[j] != '/' && name@[j] != '\\',
        decreases cs.len() - i,
    {
        if cs[i] == '/' || cs[i] == '\\' {
            return false;
        }
        i = i + 1;
    }
    if cs.len() == 2 && cs[0] == '.' && cs[1] == '.' {
        assert(name@ =~= seq!['.', '.']);
        return false;
    }
    assert(name@.len() != 2 || name@[0] != '.' || name@[1] != '.');
    assert(name@ != seq!['.', '.']);
    true
}

/// The acceptable references among `names`, each once, in order of first
/// occurrence.
pub open spec fn referenced_media_spec(names: Seq<Seq<char>>) -> Seq<Seq<char>>
    decreases names.len(),
{
    if names.len() == 0 {
        Seq::empty()
    } else {
        let before = referenced_media_spec(names.drop_last());
        if is_valid_media_name(names.last()) && !before.contains(names.last()) {
            before.push(names.last())
        } else {
            before
        }
    }
}

/// The media files to fetch: the acceptable references among `names`, each
/// once (invalid ones are ignored).
pub fn referenced_media(names: &Vec<String>) -> (r: Vec<String>)
    ensures
        str_views(r@) == referenced_media_spec(str_views(names@)),
{
    let mut r: Vec<String> = Vec::new();
    let mut i: usize = 0;
    while i < names.len()
        invariant
            i <= names.len(),
            str_views(r@) == referenced_media_spec(str_views(names@).take(i as int)),
        decreases names.len() - i,
    {
        let ghost t = str_views(names@).take(i + 1);
        proof {
            assert(t.drop_last() =~= str_views(names@).take(i as int));
            assert(t.last() == names@[i as int]@);
        }
        if valid_media_name(names[i].as_str()) && !contains_str(&r, names[i].as_str()) {
            let ghost before = str_views(r@);
            r.push(names[i].clone());
            proof {
                assert(str_views(r@) =~= before.push(names@[i as int]@));
            }
        }
        i = i + 1;
    }
    proof {
        assert(str_views(names@).take(names.len() as int) =~= str_views(names@));
    }
    r
}

/// Whether a file of the media folder is stale: no configuration references
/// it (this covers leftovers of interrupted downloads).
pub fn is_stale_media(file_name: &str, referenced: &Vec<String>) -> (r: bool)
    ensures
        r == !str_views(referenced@).contains(file_name@),
{
    !contains_str(referenced, file_name)
}

/// `media/`, the folder of media files relative to the remote.
pub open spec fn media_reference() -> Seq<char> {
    seq!['m', 'e', 'd', 'i', 'a', '/']
}

/// The URL of media file `name` on the remote `remote`: `media/<name>`
/// resolved against it; none where a resolution fails.
pub fn media_url(remote: &str, name: &str) -> (r: Option<String>)
    ensures
        r matches Some(u) ==> url_resolved(remote@, media_reference()) matches Some(m)
            && url_resolved(m, name@) == Some(u@),
        r is None ==> match url_resolved(remote@, media_reference()) {
            Some(m) => url_resolved(m, name@) is None,
            None => true,
        },
{
    proof {
        reveal_strlit("media/");
        assert("media/"@ =~= media_reference());
    }
    let dir = match url_join(remote, "media/") {
        Ok(d) => d,
        Err(_) => return None,
    };
    match url_join(dir.as_str(), name) {
        Ok(u) => Some(u),
        Err(_) => None,
    }
}

/// Every media file fetched has an acceptable name, none is fetched twice,
/// and every acceptable reference is fetched.
pub proof fn lemma_referenced_media_valid_and_unique(names: Seq<Seq<char>>)
    ensures
        forall|i: int|
            0 <= i < referenced_media_spec(names).len() ==> is_valid_media_name(
                #[trigger] referenced_media_spec(names)[i],
            ),
        forall|i: int, j: int|
            0 <= i < j < referenced_media_spec(names).len() ==> #[trigger] referenced_media_spec(
                names,
            )[i] != #[trigger] referenced_media_spec(names)[j],
        forall|n: Seq<char>|
            names.contains(n) && is_valid_media_name(n) ==> #[trigger] referenced_media_spec(
                names,
            ).contains(n),
    decreases names.len(),
{
    if names.len() > 0 {
        let before = referenced_media_spec(names.drop_last());
        lemma_referenced_media_valid_and_unique(names.drop_last());
        let r = referenced_media_spec(names);
        let x = names.last();
        if is_valid_media_name(x) && !before.contains(x) {
            assert forall|i: int, j: int| 0 <= i < j < r.len() implies #[trigger] r[i] != #[trigger] r[j] by {
                if j == r.len() - 1 {
                    assert(r[j] == x);
                    assert(r[i] == before[i]);
                    if r[i] == x {
                        assert(before.contains(x));
                    }
                } else {
                    assert(r[i] == before[i] && r[j] == before[j]);
                }
            }
            assert forall|i: int| 0 <= i < r.len() implies is_valid_media_name(#[trigger] r[i]) by {
                if i < r.len() - 1 {
                    assert(r[i] == before[i]);
                }
            }
        }
        assert forall|n: Seq<char>| names.contains(n) && is_valid_media_name(n) implies #[trigger] r.contains(n) by {
            let k = choose|k: int| 0 <= k < names.len() && names[k] == n;
            if k < names.len() - 1 {
                assert(names.drop_last()[k] == n);
                assert(before.contains(n));
                let m = choose|m: int| 0 <= m < before.len() && before[m] == n;
                if r.len() == before.len() + 1 {
                    assert(r[m] == before[m]);
                } else {
                    assert(r == before);
                }
            } else {
                assert(x == n);
                if before.contains(x) {
                    let m = choose|m: int| 0 <= m < before.len() && before[m] == n;
                    assert(r == before);
                } else {
                    assert(r[r.len() - 1] == x);
                }
            }
        }
    }
}

} // verus!

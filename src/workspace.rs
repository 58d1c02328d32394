//! Checks shared by the notebook and note stack operations. Paths are
//! `/`-separated text; existence and the contents of the `.notes` file are
//! read by the caller.

use vstd::prelude::*;
use crate::error::NotesError;
use crate::frontmatter::{is_whitespace, trim_end};
use crate::text::{
    chars_of, copy_text, find_text, nonempty_only, occurs_at, pieces, prefix_to, push_char,
    push_text, split_text, string_of, suffix_from, text_contains, views,
};
use crate::walker::last_index_of;

verus! {

/// The last component of a path, as `Path::file_name` gives it: the last
/// non-empty segment that is not `.`, unless that is `..`.
pub open spec fn base_name(p: Seq<char>) -> Option<Seq<char>> {
    let segs = real_segments(nonempty_only(pieces(p, '/')));
    if segs.len() == 0 || segs.last() == seq!['.', '.'] {
        None
    } else {
        Some(segs.last())
    }
}

/// The segments that are not `.`.
pub open spec fn real_segments(s: Seq<Seq<char>>) -> Seq<Seq<char>>
    decreases s.len(),
{
    if s.len() == 0 {
        Seq::empty()
    } else if s.last() == seq!['.'] {
        real_segments(s.drop_last())
    } else {
        real_segments(s.drop_last()).push(s.last())
    }
}

/// A path whose last component has an extension: a dot in it that is not
/// its first character.
pub open spec fn has_extension(p: Seq<char>) -> bool {
    match base_name(p) {
        Some(n) => last_index_of(n, '.') > 0,
        None => false,
    }
}

/// The name that notebook and stack operations may not touch.
pub open spec fn reserved_name() -> Seq<char> {
    seq!['m', 'a', 'i', 'n']
}

fn text_of(v: Vec<char>) -> (r: String)
    ensures
        r@ == v@,
{
    string_of(&v)
}

/// The last component of `p`.
pub fn base_name_of(p: &str) -> (r: Option<String>)
    ensures
        r is None <==> base_name(p@) is None,
        r matches Some(n) ==> base_name(p@) == Some(n@),
{
    let parts = split_text(p, '/');
    let segs = crate::text::keep_nonempty(&parts, 0);
    proof {
        assert(views(parts@).skip(0) =~= views(parts@));
    }
    let dot = text_of(vec!['.']);
    let mut kept: Vec<String> = Vec::new();
    let mut i: usize = 0;
    while i < segs.len()
        invariant
            i <= segs.len(),
            dot@ == seq!['.'],
            views(kept@) == real_segments(views(segs@).take(i as int)),
        decreases segs.len() - i,
    {
        proof {
            let t = views(segs@).take(i + 1);
            assert(t.drop_last() =~= views(segs@).take(i as int));
            assert(t.last() == segs@[i as int]@);
        }
        if segs[i] != dot {
            let ghost before = kept@;
            let c = copy_text(segs[i].as_str());
            kept.push(c);
            proof {
                assert(views(kept@) =~= views(before).push(c@));
            }
        }
        i = i + 1;
    }
    proof {
        assert(views(segs@).take(i as int) =~= views(segs@));
    }
    if kept.len() == 0 {
        return None;
    }
    let dots = text_of(vec!['.', '.']);
    let last = copy_text(kept[kept.len() - 1].as_str());
    proof {
        assert(views(kept@).last() == kept@[kept.len() - 1]@);
    }
    if last == dots {
        None
    } else {
        Some(last)
    }
}

/// Whether the last component of `p` has an extension.
pub fn extension_of(p: &str) -> (r: bool)
    ensures
        r == has_extension(p@),
{
    match base_name_of(p) {
        None => false,
        Some(n) => {
            let v = chars_of(n.as_str());
            let mut i: usize = v.len();
            proof {
                assert(v@.take(v.len() as int) =~= v@);
            }
            while i > 0
                invariant
                    i <= v.len(),
                    v@ == n@,
                    base_name(p@) == Some(n@),
                    last_index_of(v@, '.') == last_index_of(v@.take(i as int), '.'),
                decreases i,
            {
                proof {
                    assert(v@.take(i as int).drop_last() =~= v@.take(i - 1));
                }
                if v[i - 1] == '.' {
                    proof {
                        assert(v@.take(i as int).last() == '.');
                    }
                    return i - 1 > 0;
                }
                i = i - 1;
            }
            false
        },
    }
}

/// `'<name>' <what>` for the error messages.
fn quoted_message(name: &str, what: &str) -> (r: String) {
    let mut m = String::new();
    push_char(&mut m, '\'');
    push_text(&mut m, name);
    push_char(&mut m, '\'');
    push_char(&mut m, ' ');
    push_text(&mut m, what);
    m
}

/// Refuses a path whose last component is the reserved name, or that has
/// no last component.
pub fn reject_reserved(p: String, kind: &str) -> (r: Result<String, NotesError>)
    ensures
        r is Ok <==> (base_name(p@) matches Some(n) && n != reserved_name()),
        r matches Ok(q) ==> q == p,
        r matches Err(e) ==> e is Invalid,
{
    match base_name_of(p.as_str()) {
        None => Err(NotesError::Invalid(quoted_message(p.as_str(), kind))),
        Some(n) => {
            let main = text_of(vec!['m', 'a', 'i', 'n']);
            if n == main {
                Err(NotesError::Invalid(quoted_message(n.as_str(), kind)))
            } else {
                Ok(p)
            }
        },
    }
}

/// Refuses a path whose last component has an extension.
pub fn reject_extension(p: String, kind: &str) -> (r: Result<String, NotesError>)
    ensures
        r is Ok <==> !has_extension(p@),
        r matches Ok(q) ==> q == p,
        r matches Err(e) ==> e is Invalid,
{
    if extension_of(p.as_str()) {
        Err(NotesError::Invalid(quoted_message(p.as_str(), kind)))
    } else {
        Ok(p)
    }
}

/// Refuses a path that exists.
pub fn reject_existing(p: String, present: bool, kind: &str) -> (r: Result<String, NotesError>)
    ensures
        r is Ok <==> !present,
        r matches Ok(q) ==> q == p,
        r matches Err(e) ==> e is Invalid,
{
    if present {
        Err(NotesError::Invalid(quoted_message(p.as_str(), kind)))
    } else {
        Ok(p)
    }
}

/// Refuses a path that does not exist.
pub fn reject_missing(p: String, present: bool, kind: &str) -> (r: Result<String, NotesError>)
    ensures
        r is Ok <==> present,
        r matches Ok(q) ==> q == p,
        r matches Err(e) ==> e is Invalid,
{
    if !present {
        Err(NotesError::Invalid(quoted_message(p.as_str(), kind)))
    } else {
        Ok(p)
    }
}

/// The value after the first `key` in the text of the `.notes` file, with
/// trailing white space trimmed, as `split_once(key).1.trim_end()` gives it.
pub open spec fn active_value(notes: Seq<char>, key: Seq<char>) -> Option<Seq<char>> {
    if text_contains(notes, key) {
        let i = choose|i: int| occurs_at(notes, key, i) && forall|j: int| 0 <= j < i ==> !occurs_at(notes, key, j);
        Some(trim_end(notes.skip(i + key.len())))
    } else {
        None
    }
}

/// `s` without trailing white space.
pub fn trimmed_end(s: &str) -> (r: String)
    ensures
        r@ == trim_end(s@),
{
    let v = chars_of(s);
    let mut j: usize = v.len();
    proof {
        assert(v@.take(v.len() as int) =~= v@);
    }
    while j > 0 && is_whitespace(v[j - 1])
        invariant
            j <= v.len(),
            v@ == s@,
            trim_end(v@) == trim_end(v@.take(j as int)),
        decreases j,
    {
        proof {
            assert(v@.take(j as int).drop_last() =~= v@.take(j - 1));
        }
        j = j - 1;
    }
    proof {
        if j > 0 {
            assert(v@.take(j as int).last() == v@[j - 1]);
        }
    }
    prefix_to(s, j)
}

/// The value after `key` in the `.notes` text, trimmed at its end.
pub fn active_of(notes: &str, key: &str) -> (r: Option<String>)
    ensures
        opt_view_eq(r, active_value(notes@, key@)),
{
    match find_text(notes, key) {
        None => None,
        Some(i) => {
            proof {
                let k = choose|k: int| occurs_at(notes@, key@, k) && forall|j: int| 0 <= j < k ==> !occurs_at(notes@, key@, j);
                assert(k == i as int) by {
                    if k < i {
                        assert(!occurs_at(notes@, key@, k));
                    }
                    if k > i {
                        assert(!occurs_at(notes@, key@, i as int));
                    }
                }
            }
            let kl = key.unicode_len();
            let nv = chars_of(notes);
            let nl = nv.len();
            proof {
                assert(nl == notes@.len());
                assert(occurs_at(notes@, key@, i as int));
            }
            let rest = suffix_from(notes, i + kl);
            Some(trimmed_end(rest.as_str()))
        },
    }
}

pub open spec fn opt_view_eq(a: Option<String>, b: Option<Seq<char>>) -> bool {
    match (a, b) {
        (Some(x), Some(y)) => x@ == y,
        (None, None) => true,
        _ => false,
    }
}

/// Refuses an operation on the active notebook or stack: the one that the
/// `.notes` text names after `key`. Also refuses when that text names none
/// or the path has no last component.
pub fn reject_active(p: String, notes: &str, key: &str, kind: &str) -> (r: Result<String, NotesError>)
    ensures
        r is Ok <==> (active_value(notes@, key@) matches Some(a) && base_name(p@) matches Some(n)
            && a != n),
        r matches Ok(q) ==> q == p,
        r matches Err(e) ==> e is Invalid,
{
    match active_of(notes, key) {
        None => Err(NotesError::Invalid(quoted_message(key, kind))),
        Some(a) => match base_name_of(p.as_str()) {
            None => Err(NotesError::Invalid(quoted_message(p.as_str(), kind))),
            Some(n) => {
                if a == n {
                    Err(NotesError::Invalid(quoted_message(n.as_str(), kind)))
                } else {
                    Ok(p)
                }
            },
        },
    }
}

/// The directory that holds `p`: the text before its last separator.
pub open spec fn parent_of(p: Seq<char>) -> Option<Seq<char>> {
    let k = last_index_of(p, '/');
    if k < 0 {
        None
    } else {
        Some(p.take(k))
    }
}

/// The directory that holds `p`.
pub fn parent_dir(p: &str) -> (r: Option<String>)
    ensures
        opt_view_eq(r, parent_of(p@)),
{
    let v = chars_of(p);
    let mut i: usize = v.len();
    proof {
        assert(v@.take(v.len() as int) =~= v@);
    }
    while i > 0
        invariant
            i <= v.len(),
            v@ == p@,
            last_index_of(v@, '/') == last_index_of(v@.take(i as int), '/'),
        decreases i,
    {
        proof {
            assert(v@.take(i as int).drop_last() =~= v@.take(i - 1));
        }
        if v[i - 1] == '/' {
            return Some(prefix_to(p, i - 1));
        }
        i = i - 1;
    }
    None
}

} // verus!

verus! {

/// Where a notebook or stack named `name` lives: beside the active one.
pub open spec fn sibling_path(conf_path: Seq<char>, name: Seq<char>) -> Option<Seq<char>> {
    match parent_of(conf_path) {
        Some(d) => Some(crate::create::path_push(d, name)),
        None => None,
    }
}

/// The place of a notebook or stack named `name`.
pub fn sibling(conf_path: &str, name: &str) -> (r: Option<String>)
    ensures
        opt_view_eq(r, sibling_path(conf_path@, name@)),
{
    match parent_dir(conf_path) {
        None => None,
        Some(d) => Some(crate::create::push_component(d.as_str(), name)),
    }
}

/// The checks for creating one: no extension, not reserved, not active,
/// not already there.
pub open spec fn may_create(p: Seq<char>, notes: Seq<char>, key: Seq<char>, present: bool) -> bool {
    &&& !has_extension(p)
    &&& base_name(p) matches Some(n) && n != reserved_name()
    &&& active_value(notes, key) matches Some(a) && base_name(p) matches Some(n) && a != n
    &&& !present
}

/// The checks for removing one: no extension, there, not reserved, not active.
pub open spec fn may_remove(p: Seq<char>, notes: Seq<char>, key: Seq<char>, present: bool) -> bool {
    &&& !has_extension(p)
    &&& present
    &&& base_name(p) matches Some(n) && n != reserved_name()
    &&& active_value(notes, key) matches Some(a) && base_name(p) matches Some(n) && a != n
}

/// Runs the creation checks in order.
pub fn check_create(p: String, notes: &str, key: &str, present: bool, kind: &str) -> (r: Result<String, NotesError>)
    ensures
        r is Ok <==> may_create(p@, notes@, key@, present),
        r matches Ok(q) ==> q == p,
        r matches Err(e) ==> e is Invalid,
{
    let p = match reject_extension(p, kind) {
        Ok(p) => p,
        Err(e) => return Err(e),
    };
    let p = match reject_reserved(p, kind) {
        Ok(p) => p,
        Err(e) => return Err(e),
    };
    let p = match reject_active(p, notes, key, kind) {
        Ok(p) => p,
        Err(e) => return Err(e),
    };
    reject_existing(p, present, kind)
}

/// Runs the removal checks in order.
pub fn check_remove(p: String, notes: &str, key: &str, present: bool, kind: &str) -> (r: Result<String, NotesError>)
    ensures
        r is Ok <==> may_remove(p@, notes@, key@, present),
        r matches Ok(q) ==> q == p,
        r matches Err(e) ==> e is Invalid,
{
    let p = match reject_extension(p, kind) {
        Ok(p) => p,
        Err(e) => return Err(e),
    };
    let p = match reject_missing(p, present, kind) {
        Ok(p) => p,
        Err(e) => return Err(e),
    };
    let p = match reject_reserved(p, kind) {
        Ok(p) => p,
        Err(e) => return Err(e),
    };
    reject_active(p, notes, key, kind)
}

} // verus!

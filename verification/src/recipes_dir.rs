//! Which files of a recipes directory are recipes.

use vstd::prelude::*;

use crate::text::{chars_eq_str, chars_of};

verus! {

broadcast use vstd::string::group_string_axioms;

/// Index of the last `.` in `s`, if any.
pub open spec fn last_dot(s: Seq<char>) -> Option<int>
    decreases s.len(),
{
    if s.len() == 0 {
        None
    } else if s.last() == '.' {
        Some(s.len() - 1)
    } else {
        last_dot(s.drop_last())
    }
}

/// The extension of a file name, as `Path::extension` takes it: the text after
/// the last `.`, unless there is no `.` or the only one starts the name.
pub open spec fn extension(name: Seq<char>) -> Option<Seq<char>> {
    match last_dot(name) {
        Some(i) => if i > 0 {
            Some(name.skip(i + 1))
        } else {
            None
        },
        None => None,
    }
}

/// A recipe file name: its extension is `yaml` or `yml`.
pub open spec fn is_yaml_name(name: Seq<char>) -> bool {
    extension(name) == Some("yaml"@) || extension(name) == Some("yml"@)
}

/// Whether a file name has the extension `yaml` or `yml`.
pub fn is_yaml_file_name(name: &str) -> (b: bool)
    ensures
        b == is_yaml_name(name@),
{
    let s = chars_of(name);
    let mut i: usize = s.len();
    assert(s@.take(s@.len() as int) =~= s@);
    while i > 0 && s[i - 1] != '.'
        invariant
            i <= s@.len(),
            last_dot(s@) == last_dot(s@.take(i as int)),
        decreases i,
    {
        assert(s@.take(i as int).drop_last() =~= s@.take(i - 1));
        i = i - 1;
    }
    if i == 0 {
        assert(s@.take(0).len() == 0);
        return false;
    }
    assert(s@.take(i as int).last() == s@[i - 1]);
    let dot = i - 1;
    if dot == 0 {
        return false;
    }
    let mut ext: Vec<char> = Vec::new();
    let mut k: usize = i;
    while k < s.len()
        invariant
            i <= k <= s@.len(),
            ext@ == s@.subrange(i as int, k as int),
        decreases s@.len() - k,
    {
        ext.push(s[k]);
        assert(s@.subrange(i as int, k + 1) =~= s@.subrange(i as int, k as int).push(s@[k as int]));
        k = k + 1;
    }
    assert(ext@ =~= s@.skip(i as int));
    chars_eq_str(&ext, "yaml") || chars_eq_str(&ext, "yml")
}

} // verus!

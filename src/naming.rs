//! How a host names the model asset of a placement record.
use vstd::prelude::*;
use crate::sections::{lower_char, lower_char_exec};
use crate::text::{chars_of, string_of};

verus! {

/// A level-of-detail model: a name longer than three characters that starts
/// with `lod` in any case. Such models are not instantiated on their own.
pub open spec fn is_lod_name(name: Seq<char>) -> bool {
    name.len() > 3 && lower_char(name[0]) == 'l' && lower_char(name[1]) == 'o' && lower_char(
        name[2],
    ) == 'd'
}

pub open spec fn model_path_prefix() -> Seq<char> {
    seq!['m', 'o', 'd', 'e', 'l', 's', '/', 'g', 't', 'a', '3', '/']
}

pub open spec fn model_path_suffix() -> Seq<char> {
    seq!['.', 'd', 'f', 'f']
}

fn push_all(out: &mut Vec<char>, s: &[char])
    ensures
        final(out)@ == old(out)@ + s@,
{
    let mut i: usize = 0;
    while i < s.len()
        invariant
            i <= s@.len(),
            out@ == old(out)@ + s@.take(i as int),
        decreases s@.len() - i,
    {
        out.push(s[i]);
        i = i + 1;
        assert(out@ =~= old(out)@ + s@.take(i as int));
    }
    assert(s@.take(s@.len() as int) =~= s@);
}

/// The asset path of the model that a placement record names,
/// `models/gta3/<name>.dff`, or `None` for a level-of-detail name.
pub fn model_asset_path(name: &str) -> (r: Option<String>)
    ensures
        is_lod_name(name@) ==> r is None,
        !is_lod_name(name@) ==> (r matches Some(p) && p@ == model_path_prefix() + name@
            + model_path_suffix()),
{
    let n = chars_of(name);
    if n.len() > 3 && lower_char_exec(n[0]) == 'l' && lower_char_exec(n[1]) == 'o'
        && lower_char_exec(n[2]) == 'd' {
        return None;
    }
    let mut out: Vec<char> = vec!['m', 'o', 'd', 'e', 'l', 's', '/', 'g', 't', 'a', '3', '/'];
    assert(out@ =~= model_path_prefix());
    push_all(&mut out, n.as_slice());
    let suffix: Vec<char> = vec!['.', 'd', 'f', 'f'];
    assert(suffix@ =~= model_path_suffix());
    push_all(&mut out, suffix.as_slice());
    Some(string_of(out.as_slice()))
}

} // verus!

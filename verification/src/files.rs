//! Pure naming rules for turning source files into site pages.

use vstd::prelude::*;

use crate::text::{capitalise, chars_of, spec_capitalise, string_from, string_range};

verus! {

/// The title a filename yields: its first dot-separated segment,
/// title-cased.
pub open spec fn spec_title_from_filename(s: Seq<char>) -> Seq<char> {
    spec_capitalise(s.subrange(0, crate::parse::find_char(s, 0, '.')))
}

/// Derives a page title from a filename.
pub fn title_from_filename(filename: &str) -> (r: String)
    ensures
        r@ == spec_title_from_filename(filename@),
{
    let v = chars_of(filename);
    proof {
        crate::parse::lemma_find_char(v@, 0, '.');
    }
    let mut dot: usize = 0;
    while dot < v.len() && v[dot] != '.'
        invariant
            dot <= v@.len(),
            crate::parse::find_char(v@, 0, '.') == crate::parse::find_char(v@, dot as int, '.'),
        decreases v@.len() - dot,
    {
        dot = dot + 1;
    }
    let stem = string_range(&v, 0, dot);
    capitalise(stem.as_str())
}

/// The input filename with every `.md` occurrence turned into `.html`,
/// from position `i` on.
pub open spec fn spec_output_name(s: Seq<char>, i: int) -> Seq<char>
    decreases s.len() - i,
{
    if i < 0 || i >= s.len() {
        Seq::empty()
    } else if i + 3 <= s.len() && s[i] == '.' && s[i + 1] == 'm' && s[i + 2] == 'd' {
        seq!['.', 'h', 't', 'm', 'l'] + spec_output_name(s, i + 3)
    } else {
        seq![s[i]] + spec_output_name(s, i + 1)
    }
}

/// Maps a source filename to its output filename: `.md` becomes `.html`.
pub fn output_filename(name: &str) -> (r: String)
    ensures
        r@ == spec_output_name(name@, 0),
{
    let v = chars_of(name);
    let mut out: Vec<char> = Vec::new();
    let mut i: usize = 0;
    while i < v.len()
        invariant
            i <= v@.len(),
            v@ == name@,
            spec_output_name(v@, 0) == out@ + spec_output_name(v@, i as int),
        decreases v@.len() - i,
    {
        let ghost pre = out@;
        if v.len() - i >= 3 && v[i] == '.' && v[i + 1] == 'm' && v[i + 2] == 'd' {
            out.push('.');
            out.push('h');
            out.push('t');
            out.push('m');
            out.push('l');
            proof {
                assert(out@ =~= pre + seq!['.', 'h', 't', 'm', 'l']);
                assert(pre + (seq!['.', 'h', 't', 'm', 'l'] + spec_output_name(v@, i + 3)) =~= out@
                    + spec_output_name(v@, i + 3));
            }
            i = i + 3;
        } else {
            out.push(v[i]);
            proof {
                assert(pre + (seq![v@[i as int]] + spec_output_name(v@, i + 1)) =~= out@
                    + spec_output_name(v@, i + 1));
            }
            i = i + 1;
        }
    }
    proof {
        assert(spec_output_name(v@, v@.len() as int) =~= Seq::<char>::empty());
        assert(out@ =~= spec_output_name(name@, 0));
    }
    string_from(&out)
}

} // verus!

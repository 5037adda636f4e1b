//! Building message templates from format strings with anonymous holes.
use vstd::prelude::*;
use vstd::string::*;

use crate::text::{decimal, push_char, usize_to_decimal};

verus! {

/// The named hole for the `k`th anonymous hole: `{name}` with the `k`th name if there is
/// one, and `{k}` otherwise.
pub open spec fn template_hole(names: Seq<Seq<char>>, k: nat) -> Seq<char> {
    seq!['{'] + (if k < names.len() {
        names[k as int]
    } else {
        decimal(k)
    }) + seq!['}']
}

/// `s` with each anonymous hole `{}`, matched from left to right, replaced by its named
/// hole, numbering holes from `k`.
pub open spec fn render_template(s: Seq<char>, names: Seq<Seq<char>>, k: nat) -> Seq<char>
    decreases s.len(),
{
    if s.len() == 0 {
        Seq::empty()
    } else if s.len() >= 2 && s[0] == '{' && s[1] == '}' {
        template_hole(names, k) + render_template(s.skip(2), names, k + 1)
    } else {
        seq![s[0]] + render_template(s.drop_first(), names, k)
    }
}

/// The text of the names.
pub open spec fn names_view(names: Seq<&str>) -> Seq<Seq<char>> {
    names.map_values(|n: &str| n@)
}

/// The characters of `s` from `i` on, after a `{` that is still waiting for its match if
/// `pending`.
pub open spec fn template_rest(s: Seq<char>, i: int, pending: bool) -> Seq<char> {
    if pending {
        seq!['{'] + s.skip(i)
    } else {
        s.skip(i)
    }
}

/// Build a template from a format string `s` with anonymous holes `{}`.
///
/// Each hole is named from `names` in order; holes beyond the names are named by their
/// index; names beyond the holes are ignored.
pub fn build_template(s: &str, names: &[&str]) -> (r: String)
    requires
        s@.len() <= usize::MAX,
    ensures
        r@ == render_template(s@, names_view(names@), 0),
{
    let ghost sv = s@;
    let ghost nv = names_view(names@);
    let mut template = String::new();
    let mut next_name: usize = 0;
    let mut pending = false;
    assert(template_rest(sv, 0, false) =~= sv);
    assert(template@ + render_template(sv, nv, 0) =~= render_template(sv, nv, 0));
    for c in it: s.chars()
        invariant
            it.seq() == sv,
            sv.len() <= usize::MAX,
            nv == names_view(names@),
            next_name <= it.index(),
            template@ + render_template(template_rest(sv, it.index() as int, pending), nv, next_name as nat)
                == render_template(sv, nv, 0),
    {
        let ghost i = it.index() as int;
        let ghost before = template@;
        assert(sv.skip(i).drop_first() =~= sv.skip(i + 1));
        assert(sv.skip(i)[0] == c);
        if pending {
            let ghost r = seq!['{'] + sv.skip(i);
            assert(r.drop_first() =~= sv.skip(i));
            if c == '}' {
                assert(r.skip(2) =~= sv.skip(i + 1));
                push_char(&mut template, '{');
                if next_name < names.len() {
                    template.append(names[next_name]);
                } else {
                    let index = usize_to_decimal(next_name);
                    template.append(index.as_str());
                }
                push_char(&mut template, '}');
                assert(template@ =~= before + template_hole(nv, next_name as nat));
                assert(render_template(r, nv, next_name as nat) == template_hole(nv, next_name as nat)
                    + render_template(sv.skip(i + 1), nv, next_name as nat + 1));
                assert(template_rest(sv, i + 1, false) == sv.skip(i + 1));
                next_name = next_name + 1;
                pending = false;
            } else if c == '{' {
                push_char(&mut template, '{');
                assert(template_rest(sv, i + 1, true) =~= sv.skip(i));
                assert(render_template(r, nv, next_name as nat) == seq!['{'] + render_template(sv.skip(i), nv, next_name as nat));
                assert(template@ =~= before + seq!['{']);
            } else {
                push_char(&mut template, '{');
                push_char(&mut template, c);
                assert(render_template(r, nv, next_name as nat) == seq!['{'] + render_template(sv.skip(i), nv, next_name as nat));
                assert(render_template(sv.skip(i), nv, next_name as nat) == seq![c] + render_template(sv.skip(i + 1), nv, next_name as nat));
                assert(template@ =~= before + seq!['{'] + seq![c]);
                assert(template_rest(sv, i + 1, false) == sv.skip(i + 1));
                pending = false;
            }
        } else {
            if c == '{' {
                pending = true;
                assert(template_rest(sv, i + 1, true) =~= sv.skip(i));
            } else {
                push_char(&mut template, c);
                assert(render_template(sv.skip(i), nv, next_name as nat) == seq![c] + render_template(sv.skip(i + 1), nv, next_name as nat));
                assert(template@ =~= before + seq![c]);
            }
        }
    }
    assert(sv.skip(sv.len() as int) =~= Seq::<char>::empty());
    if pending {
        push_char(&mut template, '{');
        assert(seq!['{'].drop_first() =~= Seq::<char>::empty());
        assert(template_rest(sv, sv.len() as int, true) =~= seq!['{']);
        assert(render_template(Seq::<char>::empty(), nv, next_name as nat) == Seq::<char>::empty());
        assert(render_template(seq!['{'], nv, next_name as nat) == seq!['{'] + render_template(
            seq!['{'].drop_first(),
            nv,
            next_name as nat,
        ));
        assert(render_template(seq!['{'], nv, next_name as nat) =~= seq!['{']);
    } else {
        assert(template_rest(sv, sv.len() as int, false) =~= Seq::<char>::empty());
    }
    template
}

} // verus!

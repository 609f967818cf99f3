//! The usage text: one entry per described flag, in name order, with the
//! default value appended and the description wrapped to a width.

use vstd::prelude::*;
use vstd::string::StringExecFns;
use crate::flag::FlagView;
use crate::value::view_text;
use crate::registry::{Flags, FlagsView, spec_find, find_in, views_of};

verus! {

/// Lexicographic order on texts.
pub open spec fn str_le(a: Seq<char>, b: Seq<char>) -> bool
    decreases a.len(),
{
    if a.len() == 0 {
        true
    } else if b.len() == 0 {
        false
    } else if a[0] != b[0] {
        a[0] < b[0]
    } else {
        str_le(a.drop_first(), b.drop_first())
    }
}

fn str_le_exec(x: &String, y: &String) -> (r: bool)
    ensures
        r == str_le(x@, y@),
{
    let xl = x.as_str().unicode_len();
    let yl = y.as_str().unicode_len();
    let mut i: usize = 0;
    proof {
        assert(x@.skip(0) =~= x@);
        assert(y@.skip(0) =~= y@);
    }
    while i < xl && i < yl
        invariant
            0 <= i,
            i <= xl,
            i <= yl,
            xl == x@.len(),
            yl == y@.len(),
            str_le(x@, y@) == str_le(x@.skip(i as int), y@.skip(i as int)),
        decreases xl - i,
    {
        let cx = x.as_str().get_char(i);
        let cy = y.as_str().get_char(i);
        proof {
            let sx = x@.skip(i as int);
            let sy = y@.skip(i as int);
            assert(sx[0] == x@[i as int]);
            assert(sy[0] == y@[i as int]);
            assert(sx.drop_first() =~= x@.skip(i as int + 1));
            assert(sy.drop_first() =~= y@.skip(i as int + 1));
        }
        if cx != cy {
            return cx < cy;
        }
        i = i + 1;
    }
    proof {
        assert(x@.skip(i as int).len() == xl - i);
        assert(y@.skip(i as int).len() == yl - i);
    }
    xl <= yl
}

/// A text placed into an ordered run of texts: before the first member it
/// does not exceed.
pub open spec fn spec_insert(s: Seq<Seq<char>>, x: Seq<char>) -> Seq<Seq<char>>
    decreases s.len(),
{
    if s.len() == 0 {
        seq![x]
    } else if str_le(x, s[0]) {
        seq![x] + s
    } else {
        seq![s[0]] + spec_insert(s.drop_first(), x)
    }
}

/// The texts placed one after the other into an ordered run, from position
/// `i` on.
pub open spec fn spec_sort_from(acc: Seq<Seq<char>>, s: Seq<Seq<char>>, i: int) -> Seq<Seq<char>>
    decreases s.len() - i,
{
    if i < 0 || i >= s.len() {
        acc
    } else {
        spec_sort_from(spec_insert(acc, s[i]), s, i + 1)
    }
}

/// The texts in lexicographic order.
pub open spec fn spec_sort(s: Seq<Seq<char>>) -> Seq<Seq<char>> {
    spec_sort_from(Seq::empty(), s, 0)
}

fn insert_sorted(v: Vec<String>, x: String) -> (r: Vec<String>)
    ensures
        r.deep_view() == spec_insert(v.deep_view(), x@),
    decreases v@.len(),
{
    let ghost orig = v.deep_view();
    let mut v = v;
    if v.len() == 0 {
        proof {
            assert(orig.len() == 0);
        }
        v.push(x);
        proof {
            assert(v.deep_view() =~= seq![x@]);
        }
        v
    } else if str_le_exec(&x, &v[0]) {
        proof {
            assert(v.deep_view()[0] == v@[0]@);
            assert(str_le(x@, orig[0]));
        }
        v.insert(0, x);
        proof {
            assert(v.deep_view() =~= seq![x@] + orig);
        }
        v
    } else {
        let head = v.remove(0);
        proof {
            assert(head@ == orig[0]);
            assert(v.deep_view() =~= orig.drop_first());
        }
        let mut rest = insert_sorted(v, x);
        let ghost mid = rest.deep_view();
        rest.insert(0, head);
        proof {
            assert(rest.deep_view() =~= seq![orig[0]] + mid);
            assert(rest.deep_view() =~= seq![orig[0]] + spec_insert(orig.drop_first(), x@));
        }
        rest
    }
}

fn sort_names(names: Vec<String>) -> (r: Vec<String>)
    ensures
        r.deep_view() == spec_sort(names.deep_view()),
{
    let n = names.len();
    let mut out: Vec<String> = Vec::new();
    proof {
        assert(out.deep_view() =~= Seq::<Seq<char>>::empty());
    }
    let mut i: usize = 0;
    while i < n
        invariant
            0 <= i <= n,
            n == names@.len(),
            names.deep_view().len() == n,
            spec_sort(names.deep_view()) == spec_sort_from(
                out.deep_view(),
                names.deep_view(),
                i as int,
            ),
        decreases n - i,
    {
        proof {
            assert(names.deep_view()[i as int] == names@[i as int]@);
        }
        out = insert_sorted(out, names[i].clone());
        i = i + 1;
    }
    out
}


/// The largest width not above `w` whose last character is a space, or
/// `maxw` where no width has one.
pub open spec fn pick_width(desc: Seq<char>, w: int, maxw: int) -> int
    decreases w,
{
    if w <= 0 {
        maxw
    } else if desc[w - 1] == ' ' {
        w
    } else {
        pick_width(desc, w - 1, maxw)
    }
}

proof fn lemma_pick_width_bounds(desc: Seq<char>, w: int, maxw: int)
    requires
        1 <= maxw,
        w <= maxw,
    ensures
        1 <= pick_width(desc, w, maxw) <= maxw,
    decreases w,
{
    if w > 0 && desc[w - 1] != ' ' {
        lemma_pick_width_bounds(desc, w - 1, maxw);
    }
}

/// The description wrapped: each line indented four spaces and ended by a
/// newline; a rest longer than the width is broken at the last space that
/// fits, or cut at the width where no space does.
pub open spec fn wrap_text(desc: Seq<char>, maxw: int) -> Seq<char>
    decreases desc.len(),
    when maxw >= 1
    via wrap_text_dec
{
    if desc.len() == 0 {
        Seq::empty()
    } else if desc.len() <= maxw {
        "    "@ + desc + "\n"@
    } else {
        let w = pick_width(desc, maxw, maxw);
        "    "@ + desc.take(w) + "\n"@ + wrap_text(desc.skip(w), maxw)
    }
}

#[via_fn]
proof fn wrap_text_dec(desc: Seq<char>, maxw: int) {
    if desc.len() > maxw && maxw >= 1 {
        lemma_pick_width_bounds(desc, maxw, maxw);
    }
}

/// One rendered entry: the flag line, then the wrapped description with
/// the rendered default value appended.
pub open spec fn flag_entry(f: FlagView, maxw: int) -> Seq<char> {
    let head = "--"@ + f.name + (match f.shorthand {
        Some(c) => " / -"@ + seq![c],
        None => Seq::<char>::empty(),
    }) + "\n"@;
    let desc = f.description->Some_0 + " (default: "@ + view_text(f.default_value) + ")"@;
    head + wrap_text(desc, maxw)
}

/// The names of the flags, in registration order.
pub open spec fn names_of(fs: Seq<FlagView>) -> Seq<Seq<char>> {
    fs.map_values(|f: FlagView| f.name)
}

/// The usage text from sorted-name position `n` on: flags without a
/// description, and flags marked excluded, are left out, but still count
/// for the blank line that separates entries.
pub open spec fn usage_from(
    fs: Seq<FlagView>,
    names: Seq<Seq<char>>,
    n: int,
    maxw: int,
) -> Seq<char>
    decreases names.len() - n,
{
    if n < 0 || n >= names.len() {
        Seq::empty()
    } else {
        let piece = match spec_find(fs, names[n]) {
            Some(i) => {
                let f = fs[i];
                if f.description is Some && !f.exclude_from_usage {
                    flag_entry(f, maxw) + (if n != names.len() - 1 {
                        "\n"@
                    } else {
                        Seq::<char>::empty()
                    })
                } else {
                    Seq::<char>::empty()
                }
            },
            None => Seq::<char>::empty(),
        };
        piece + usage_from(fs, names, n + 1, maxw)
    }
}

/// The whole usage text at a width: entries in name order.
pub open spec fn spec_usage(v: FlagsView, width: int) -> Seq<char> {
    usage_from(v.flags, spec_sort(names_of(v.flags)), 0, width - 4)
}

/// The usage text for these flags, wrapped to the width: one entry per
/// described, not-excluded flag, in name order — the flag line with its
/// shorthand, then the description and default value wrapped to the width
/// over a four-space indent, entries parted by blank lines.
pub fn generate_string(flags: &Flags, width: usize) -> (r: String)
    requires
        width >= 5,
    ensures
        r@ == spec_usage(flags@, width as int),
{
    let maxw = width - 4;
    let mut names: Vec<String> = Vec::new();
    let count = flags.flags.len();
    let mut i: usize = 0;
    proof {
        assert(names.deep_view() =~= names_of(flags@.flags).take(0));
    }
    while i < count
        invariant
            0 <= i <= count,
            count == flags.flags@.len(),
            names_of(flags@.flags).len() == count,
            names.deep_view() == names_of(flags@.flags).take(i as int),
        decreases count - i,
    {
        let ghost pre = names.deep_view();
        names.push(flags.flags[i].name.clone());
        proof {
            assert(flags@.flags[i as int] == flags.flags@[i as int]@);
            assert(names.deep_view() =~= pre.push(flags@.flags[i as int].name));
            assert(names_of(flags@.flags).take(i as int + 1) =~= names_of(flags@.flags).take(
                i as int,
            ).push(names_of(flags@.flags)[i as int]));
        }
        i = i + 1;
    }
    proof {
        assert(names_of(flags@.flags).take(count as int) =~= names_of(flags@.flags));
    }
    let sorted = sort_names(names);
    let ghost snames = spec_sort(names_of(flags@.flags));
    let mut out = String::new();
    let total = sorted.len();
    let mut n: usize = 0;
    proof {
        assert(out@ + usage_from(flags@.flags, snames, 0, maxw as int) =~= usage_from(
            flags@.flags,
            snames,
            0,
            maxw as int,
        ));
    }
    while n < total
        invariant
            0 <= n <= total,
            total == sorted@.len(),
            sorted.deep_view() == snames,
            snames.len() == total,
            maxw == width - 4,
            maxw >= 1,
            usage_from(flags@.flags, snames, 0, maxw as int) == out@ + usage_from(
                flags@.flags,
                snames,
                n as int,
                maxw as int,
            ),
        decreases total - n,
    {
        proof {
            assert(snames[n as int] == sorted@[n as int]@);
        }
        let ghost outpre = out@;
        match find_in(&flags.flags, sorted[n].as_str()) {
            None => {
                proof {
                    assert(out@ =~= outpre + Seq::<char>::empty());
                }
            },
            Some(fi) => {
                proof {
                    crate::registry::lemma_find_from_some(views_of(flags.flags@), snames[n as int], 0);
                    assert(flags@.flags[fi as int] == flags.flags@[fi as int]@);
                }
                let f = &flags.flags[fi];
                let ghost fv = flags@.flags[fi as int];
                let skip_entry = f.exclude_from_usage || f.description.is_none();
                if !skip_entry {
                    let d = match &f.description {
                        Some(d) => d.clone(),
                        None => vstd::pervasive::unreached(),
                    };
                    out.append("--");
                    out.append(f.name.as_str());
                    match f.shorthand {
                        Some(c) => {
                            out.append(" / -");
                            out.push(c);
                        },
                        None => {},
                    }
                    out.append("\n");
                    proof {
                        match fv.shorthand {
                            Some(c) => {
                                assert(out@ =~= outpre + ("--"@ + fv.name + (" / -"@ + seq![c])
                                    + "\n"@));
                            },
                            None => {
                                assert(out@ =~= outpre + ("--"@ + fv.name + Seq::<char>::empty()
                                    + "\n"@));
                            },
                        }
                    }
                    let ghost headed = out@;
                    let mut desc = d;
                    desc.append(" (default: ");
                    let dv = f.default_value.to_text();
                    desc.append(dv.as_str());
                    desc.append(")");
                    proof {
                        assert(desc@ =~= fv.description->Some_0 + " (default: "@ + view_text(
                            fv.default_value,
                        ) + ")"@);
                    }
                    let dlen = desc.as_str().unicode_len();
                    let ghost target = headed + wrap_text(desc@, maxw as int);
                    proof {
                        assert(desc@.skip(0) =~= desc@);
                    }
                    let mut l: usize = 0;
                    while l < dlen
                        invariant
                            0 <= l <= dlen,
                            dlen == desc@.len(),
                            maxw >= 1,
                            target == out@ + wrap_text(desc@.skip(l as int), maxw as int),
                        decreases dlen - l,
                    {
                        let ghost suf = desc@.skip(l as int);
                        let remaining = dlen - l;
                        let w = if remaining <= maxw {
                            remaining
                        } else {
                            let mut ww = maxw;
                            while ww >= 1 && desc.as_str().get_char(l + ww - 1) != ' '
                                invariant
                                    0 <= ww <= maxw,
                                    maxw >= 1,
                                    dlen == desc@.len(),
                                    0 <= l,
                                    l + maxw < dlen,
                                    suf == desc@.skip(l as int),
                                    pick_width(suf, maxw as int, maxw as int) == pick_width(
                                        suf,
                                        ww as int,
                                        maxw as int,
                                    ),
                                decreases ww,
                            {
                                proof {
                                    assert(suf[ww - 1] == desc@[l + ww - 1]);
                                }
                                ww = ww - 1;
                            }
                            proof {
                                if ww >= 1 {
                                    assert(suf[ww - 1] == desc@[l + ww - 1]);
                                    assert(pick_width(suf, ww as int, maxw as int) == ww);
                                }
                            }
                            if ww == 0 {
                                maxw
                            } else {
                                ww
                            }
                        };
                        proof {
                            assert(w >= 1);
                            assert(l + w <= dlen) by {
                                if remaining > maxw {
                                    lemma_pick_width_bounds(suf, maxw as int, maxw as int);
                                }
                            };
                        }
                        out.append("    ");
                        let piece = desc.as_str().substring_char(l, l + w);
                        out.append(piece);
                        out.append("\n");
                        proof {
                            let lw = l as int + w as int;
                            assert(piece@ =~= suf.take(w as int));
                            assert(desc@.skip(lw) =~= suf.skip(w as int));
                            if remaining <= maxw {
                                assert(suf.take(w as int) =~= suf);
                                assert(suf.skip(w as int) =~= Seq::<char>::empty());
                                assert(wrap_text(suf, maxw as int) == "    "@ + suf + "\n"@);
                                assert(out@ + wrap_text(desc@.skip(lw), maxw as int) =~= target);
                            } else {
                                assert(w as int == pick_width(suf, maxw as int, maxw as int));
                                assert(wrap_text(suf, maxw as int) == "    "@ + suf.take(w as int)
                                    + "\n"@ + wrap_text(suf.skip(w as int), maxw as int));
                                assert(out@ + wrap_text(desc@.skip(lw), maxw as int) =~= target);
                            }
                        }
                        l = l + w;
                    }
                    proof {
                        assert(desc@.skip(dlen as int) =~= Seq::<char>::empty());
                        assert(wrap_text(Seq::<char>::empty(), maxw as int) == Seq::<char>::empty());
                        assert(out@ =~= target);
                        assert(out@ =~= outpre + flag_entry(fv, maxw as int));
                    }
                    if n != total - 1 {
                        out.append("\n");
                        proof {
                            assert(out@ =~= outpre + (flag_entry(fv, maxw as int) + "\n"@));
                        }
                    } else {
                        proof {
                            assert(out@ =~= outpre + (flag_entry(fv, maxw as int)
                                + Seq::<char>::empty()));
                        }
                    }
                } else {
                    proof {
                        assert(out@ =~= outpre + Seq::<char>::empty());
                    }
                }
            },
        }
        n = n + 1;
    }
    out
}

} // verus!

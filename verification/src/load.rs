//! The command-line phase: a state machine that walks the argument vector
//! and writes flag values, collects positionals, or stops with a fault.

use vstd::prelude::*;
use vstd::pervasive::VecAdditionalExecFns;
use crate::flag::{Flag, FlagView, flag_wf, env_name};
use crate::value::{ValueView, Tag, view_tag, is_array_tag, view_clear, view_parse_and_set,
    view_set_json};
use crate::json::{JsonVal, json_doc_of_text};
use crate::fault::{FaultView, LoadFault, Warning, WarningView};
use crate::registry::{
    Flags, FlagsView, spec_find, find_from, spec_sh_find, views_of, find_in, flags_wf,
    lemma_find_from_some, lemma_sh_find_from_some,
};

verus! {

/// One write of a text into the flag at position `i`: the first write of a
/// load phase resets an array flag before the parsed text is applied, any
/// further write appends. `None` where the text does not parse.
pub open spec fn write_text(fs: Seq<FlagView>, touched: Seq<bool>, i: int, t: Seq<char>) -> Option<
    (Seq<FlagView>, Seq<bool>),
> {
    let f = fs[i];
    let base = if is_array_tag(view_tag(f.value)) && !touched[i] {
        view_clear(f.value)
    } else {
        f.value
    };
    match view_parse_and_set(base, t) {
        Some(v2) => Some(
            (fs.update(i, FlagView { value: v2, ..f }), touched.update(i, true)),
        ),
        None => None,
    }
}

/// The state of the argument walk.
pub struct ArgsState {
    pub flags: Seq<FlagView>,
    pub touched: Seq<bool>,
    pub positionals: Seq<Seq<char>>,
    pub awaiting: Option<int>,
    pub pos_only: bool,
}

/// One shorthand cluster, from character position `j` on: boolean flags are
/// set true as the letters pass; the first letter of a flag that needs a
/// value stops the cluster, and the next whole token will be its value.
pub open spec fn cluster_step(
    st: ArgsState,
    sh: Seq<(char, Seq<char>)>,
    t: Seq<char>,
    j: int,
) -> Result<ArgsState, FaultView>
    decreases t.len() - j,
{
    if j < 0 || j >= t.len() {
        Ok(st)
    } else {
        let c = t[j];
        match spec_sh_find(sh, c) {
            None => Err(FaultView::UnknownFlag { token: seq!['-', c] }),
            Some(k) => match spec_find(st.flags, sh[k].1) {
                None => Err(FaultView::UnknownFlag { token: seq!['-', c] }),
                Some(i) => if view_tag(st.flags[i].value) == Tag::Bool {
                    cluster_step(
                        ArgsState {
                            flags: st.flags.update(
                                i,
                                FlagView { value: ValueView::Bool(true), ..st.flags[i] },
                            ),
                            ..st
                        },
                        sh,
                        t,
                        j + 1,
                    )
                } else {
                    Ok(ArgsState { awaiting: Some(i), ..st })
                },
            },
        }
    }
}

/// One token of the argument walk.
pub open spec fn args_step(st: ArgsState, sh: Seq<(char, Seq<char>)>, t: Seq<char>) -> Result<
    ArgsState,
    FaultView,
> {
    if st.pos_only {
        Ok(ArgsState { positionals: st.positionals.push(t), ..st })
    } else if st.awaiting is Some {
        let i = st.awaiting->Some_0;
        match write_text(st.flags, st.touched, i, t) {
            Some(pair) => Ok(
                ArgsState { flags: pair.0, touched: pair.1, awaiting: None, ..st },
            ),
            None => Err(FaultView::ParseFailure { flag: st.flags[i].name, text: t }),
        }
    } else if t == seq!['-', '-'] {
        Ok(ArgsState { pos_only: true, ..st })
    } else if t == seq!['-'] {
        Ok(ArgsState { positionals: st.positionals.push(t), ..st })
    } else if t.len() >= 2 && t[0] == '-' && t[1] == '-' {
        let name = t.subrange(2, t.len() as int);
        match spec_find(st.flags, name) {
            None => Err(FaultView::UnknownFlag { token: t }),
            Some(i) => if view_tag(st.flags[i].value) == Tag::Bool {
                Ok(
                    ArgsState {
                        flags: st.flags.update(
                            i,
                            FlagView { value: ValueView::Bool(true), ..st.flags[i] },
                        ),
                        ..st
                    },
                )
            } else {
                Ok(ArgsState { awaiting: Some(i), ..st })
            },
        }
    } else if t.len() >= 2 && t[0] == '-' {
        cluster_step(st, sh, t, 1)
    } else {
        Ok(ArgsState { positionals: st.positionals.push(t), ..st })
    }
}

/// The whole argument walk, from token `k` on. Input that ends while a
/// value is still awaited simply ends the walk: the pending flag is left as
/// it stood.
pub open spec fn args_run(
    st: ArgsState,
    sh: Seq<(char, Seq<char>)>,
    toks: Seq<Seq<char>>,
    k: int,
) -> Result<ArgsState, FaultView>
    decreases toks.len() - k,
{
    if k < 0 || k >= toks.len() {
        Ok(st)
    } else {
        match args_step(st, sh, toks[k]) {
            Ok(st2) => args_run(st2, sh, toks, k + 1),
            Err(f) => Err(f),
        }
    }
}

/// The walk's starting state: the registry's flags, nothing touched this
/// phase, no positionals yet.
pub open spec fn init_args_state(v: FlagsView) -> ArgsState {
    ArgsState {
        flags: v.flags,
        touched: Seq::new(v.flags.len(), |i: int| false),
        positionals: Seq::empty(),
        awaiting: None,
        pos_only: false,
    }
}

/// What parsing an argument vector does to a registry: flag values written,
/// positionals appended; or the first fault.
pub open spec fn spec_parse_args(v: FlagsView, toks: Seq<Seq<char>>) -> Result<
    FlagsView,
    FaultView,
> {
    match args_run(init_args_state(v), v.shorthands, toks, 0) {
        Ok(st) => Ok(
            FlagsView { flags: st.flags, positionals: v.positionals + st.positionals, ..v },
        ),
        Err(f) => Err(f),
    }
}

/// Two flag sequences of the same shape: only the current values may
/// differ, and even those keep their shapes.
pub open spec fn shape_eq(x: FlagView, y: FlagView) -> bool {
    &&& y.name == x.name
    &&& y.shorthand == x.shorthand
    &&& y.default_value == x.default_value
    &&& y.description == x.description
    &&& y.env_delimiter == x.env_delimiter
    &&& y.exclude_from_usage == x.exclude_from_usage
    &&& view_tag(y.value) == view_tag(x.value)
}

pub open spec fn same_shape(a: Seq<FlagView>, b: Seq<FlagView>) -> bool {
    a.len() == b.len() && forall|i: int|
        0 <= i < a.len() ==> shape_eq(#[trigger] a[i], #[trigger] b[i])
}

pub proof fn lemma_find_same_shape(a: Seq<FlagView>, b: Seq<FlagView>, name: Seq<char>, i: int)
    requires
        same_shape(a, b),
        0 <= i,
    ensures
        find_from(b, name, i) == find_from(a, name, i),
    decreases a.len() - i,
{
    if i < a.len() {
        lemma_find_same_shape(a, b, name, i + 1);
    }
}

/// A registry stays well formed when its flags change shape-preservingly.
pub proof fn lemma_wf_same_shape(v: FlagsView, fs2: Seq<FlagView>)
    requires
        flags_wf(v),
        same_shape(v.flags, fs2),
    ensures
        flags_wf(FlagsView { flags: fs2, ..v }),
{
    let v2 = FlagsView { flags: fs2, ..v };
    assert forall|i: int| 0 <= i < v2.flags.len() implies flag_wf(#[trigger] v2.flags[i]) by {
        assert(flag_wf(v.flags[i]));
        assert(shape_eq(v.flags[i], fs2[i]));
    }
    assert forall|i: int, j: int|
        0 <= i < v2.flags.len() && 0 <= j < v2.flags.len() && i != j implies (
    #[trigger] v2.flags[i]).name != (#[trigger] v2.flags[j]).name by {
        assert(shape_eq(v.flags[i], fs2[i]));
        assert(shape_eq(v.flags[j], fs2[j]));
        assert(v.flags[i].name != v.flags[j].name);
    }
    assert forall|k: int, l: int|
        0 <= k < v2.shorthands.len() && 0 <= l < v2.shorthands.len() && k != l implies (
    #[trigger] v2.shorthands[k]).0 != (#[trigger] v2.shorthands[l]).0 by {
        assert(v.shorthands[k].0 != v.shorthands[l].0);
    }
    assert forall|k: int|
        0 <= k < v2.shorthands.len() implies spec_find(
        v2.flags,
        (#[trigger] v2.shorthands[k]).1,
    ) is Some by {
        assert(spec_find(v.flags, v.shorthands[k].1) is Some);
        lemma_find_same_shape(v.flags, fs2, v.shorthands[k].1, 0);
    }
}

/// The state an exec walk holds, seen as the machine's state.
pub open spec fn cur_state(
    fs: Seq<Flag>,
    touched: Seq<bool>,
    pos: Seq<Seq<char>>,
    awaiting: Option<usize>,
    pos_only: bool,
) -> ArgsState {
    ArgsState {
        flags: views_of(fs),
        touched: touched,
        positionals: pos,
        awaiting: match awaiting {
            Some(i) => Some(i as int),
            None => None,
        },
        pos_only: pos_only,
    }
}

/// A usable walk state over the registry flags the walk began with: same
/// shapes, aligned
/// touched set, any awaited index in range.
pub open spec fn st_ok(orig: Seq<FlagView>, st: ArgsState) -> bool {
    &&& same_shape(orig, st.flags)
    &&& st.touched.len() == st.flags.len()
    &&& match st.awaiting {
        Some(i) => 0 <= i < st.flags.len(),
        None => true,
    }
}

fn clone_flags(v: &Vec<Flag>) -> (r: Vec<Flag>)
    ensures
        views_of(r@) == views_of(v@),
{
    let r = v.clone();
    proof {
        assert(views_of(r@) =~= views_of(v@));
    }
    r
}

impl Flags {
    /// Runs the command-line state machine over the argument vector: long
    /// flags take the next token as their value, boolean flags stand alone,
    /// clustered shorthands resolve letter by letter, `--` ends flag
    /// parsing, and everything else is a positional. The first unknown flag
    /// or unparseable value is the fault; on a fault nothing is changed.
    /// Arguments that end while a value is still awaited leave that flag as
    /// it stood. Array flags reset on their first write of this call and
    /// append on later ones. The captured positionals are appended to the
    /// registry's and also handed back.
    pub fn parse_args(&mut self, args: &Vec<String>) -> (r: Result<Vec<String>, LoadFault>)
        requires
            old(self).wf(),
        ensures
            final(self).wf(),
            match r {
                Ok(pos) => spec_parse_args(old(self)@, args.deep_view()) == Ok::<
                    FlagsView,
                    FaultView,
                >(final(self)@)
                    && final(self)@.positionals == old(self)@.positionals + pos.deep_view(),
                Err(f) => spec_parse_args(old(self)@, args.deep_view()) == Err::<
                    FlagsView,
                    FaultView,
                >(f@) && *final(self) == *old(self),
            },
    {
        let ghost toks = args.deep_view();
        let ghost orig = old(self)@.flags;
        let ghost sh = old(self)@.shorthands;
        let mut fs = clone_flags(&self.flags);
        let mut touched: Vec<bool> = Vec::new();
        let flag_count = fs.len();
        while touched.len() < flag_count
            invariant
                touched@ =~= Seq::new(touched@.len() as nat, |i: int| false),
                touched@.len() <= flag_count,
            decreases flag_count - touched@.len(),
        {
            touched.push(false);
        }
        let mut pos: Vec<String> = Vec::new();
        let mut awaiting: Option<usize> = None;
        let mut pos_only: bool = false;
        proof {
            assert(views_of(fs@) =~= orig);
            assert(touched@ =~= init_args_state(old(self)@).touched);
            assert(pos.deep_view() =~= Seq::<Seq<char>>::empty());
            assert(cur_state(fs@, touched@, pos.deep_view(), awaiting, pos_only)
                == init_args_state(old(self)@));
        }
        let n = args.len();
        let mut k: usize = 0;
        while k < n
            invariant
                0 <= k <= n,
                n == args@.len(),
                toks == args.deep_view(),
                toks.len() == n,
                orig == old(self)@.flags,
                sh == old(self)@.shorthands,
                *self == *old(self),
                old(self).wf(),
                st_ok(orig, cur_state(fs@, touched@, pos.deep_view(), awaiting, pos_only)),
                args_run(init_args_state(old(self)@), sh, toks, 0) == args_run(
                    cur_state(fs@, touched@, pos.deep_view(), awaiting, pos_only),
                    sh,
                    toks,
                    k as int,
                ),
            decreases n - k,
        {
            let ghost st = cur_state(fs@, touched@, pos.deep_view(), awaiting, pos_only);
            let t = &args[k];
            proof {
                assert(t@ == toks[k as int]);
            }
            if pos_only {
                let ghost ppre = pos.deep_view();
                pos.push(t.clone());
                proof {
                    assert(pos.deep_view() =~= ppre.push(t@));
                    assert(args_step(st, sh, toks[k as int]) == Ok::<ArgsState, FaultView>(
                        cur_state(fs@, touched@, pos.deep_view(), awaiting, pos_only),
                    ));
                }
            } else if awaiting.is_some() {
                let i = awaiting.unwrap();
                let ghost fpre = views_of(fs@);
                let mut f = fs.remove(i);
                proof {
                    assert(f@ == fpre[i as int]);
                }
                let flag_name = f.name.clone();
                if f.value.is_vec() && !touched[i] {
                    f.value.clear();
                }
                match f.value.parse_and_set(t.as_str()) {
                    Ok(()) => {
                        let ghost f2 = f@;
                        fs.insert(i, f);
                        touched.set(i, true);
                        awaiting = None;
                        proof {
                            assert(views_of(fs@) =~= fpre.update(i as int, f2));
                            assert(write_text(st.flags, st.touched, i as int, t@) == Some::<
                                (Seq<FlagView>, Seq<bool>),
                            >((views_of(fs@), touched@)));
                            assert(args_step(st, sh, toks[k as int]) == Ok::<ArgsState, FaultView>(
                                cur_state(fs@, touched@, pos.deep_view(), awaiting, pos_only),
                            ));
                            assert(st_ok(
                                orig,
                                cur_state(fs@, touched@, pos.deep_view(), awaiting, pos_only),
                            ));
                        }
                    },
                    Err(_) => {
                        proof {
                            assert(write_text(st.flags, st.touched, i as int, t@) is None);
                            assert(args_step(st, sh, toks[k as int]) == Err::<ArgsState, FaultView>(
                                FaultView::ParseFailure { flag: st.flags[i as int].name, text: t@ },
                            ));
                        }
                        return Err(LoadFault::ParseFailure { flag: flag_name, text: t.clone() });
                    },
                }
            } else {
                let tlen = t.as_str().unicode_len();
                let c0 = if tlen >= 1 {
                    t.as_str().get_char(0)
                } else {
                    ' '
                };
                let c1 = if tlen >= 2 {
                    t.as_str().get_char(1)
                } else {
                    ' '
                };
                if tlen == 2 && c0 == '-' && c1 == '-' {
                    pos_only = true;
                    proof {
                        assert(t@ =~= seq!['-', '-']);
                        assert(args_step(st, sh, toks[k as int]) == Ok::<ArgsState, FaultView>(
                            cur_state(fs@, touched@, pos.deep_view(), awaiting, pos_only),
                        ));
                    }
                } else if tlen == 1 && c0 == '-' {
                    let ghost ppre = pos.deep_view();
                    pos.push(t.clone());
                    proof {
                        assert(t@ =~= seq!['-']);
                        assert(t@ != seq!['-', '-']);
                        assert(pos.deep_view() =~= ppre.push(t@));
                        assert(args_step(st, sh, toks[k as int]) == Ok::<ArgsState, FaultView>(
                            cur_state(fs@, touched@, pos.deep_view(), awaiting, pos_only),
                        ));
                    }
                } else if tlen >= 2 && c0 == '-' && c1 == '-' {
                    proof {
                        assert(t@ != seq!['-', '-']);
                        assert(t@ != seq!['-']);
                    }
                    let name = t.as_str().substring_char(2, tlen);
                    proof {
                        assert(name@ == t@.subrange(2, t@.len() as int));
                    }
                    match find_in(&fs, name) {
                        Some(i) => {
                            proof {
                                lemma_find_from_some(views_of(fs@), name@, 0);
                            }
                            let ghost fpre = views_of(fs@);
                            let mut f = fs.remove(i);
                            if f.value.is_bool() {
                                f.value.set_true();
                                let ghost f2 = f@;
                                fs.insert(i, f);
                                proof {
                                    assert(views_of(fs@) =~= fpre.update(i as int, f2));
                                    assert(args_step(st, sh, toks[k as int]) == Ok::<ArgsState, FaultView>(
                                        cur_state(
                                            fs@,
                                            touched@,
                                            pos.deep_view(),
                                            awaiting,
                                            pos_only,
                                        ),
                                    ));
                                }
                            } else {
                                fs.insert(i, f);
                                awaiting = Some(i);
                                proof {
                                    assert(views_of(fs@) =~= fpre);
                                    assert(args_step(st, sh, toks[k as int]) == Ok::<ArgsState, FaultView>(
                                        cur_state(
                                            fs@,
                                            touched@,
                                            pos.deep_view(),
                                            awaiting,
                                            pos_only,
                                        ),
                                    ));
                                }
                            }
                        },
                        None => {
                            proof {
                                assert(args_step(st, sh, toks[k as int]) == Err::<ArgsState, FaultView>(
                                    FaultView::UnknownFlag { token: t@ },
                                ));
                            }
                            return Err(LoadFault::UnknownFlag { token: t.clone() });
                        },
                    }
                } else if tlen >= 2 && c0 == '-' {
                    proof {
                        assert(t@ != seq!['-', '-']);
                        assert(t@ != seq!['-']);
                        assert(!(t@.len() >= 2 && t@[0] == '-' && t@[1] == '-'));
                        assert(args_step(st, sh, toks[k as int]) == cluster_step(st, sh, t@, 1));
                    }
                    let mut j: usize = 1;
                    let mut stopped = false;
                    while j < tlen && !stopped
                        invariant
                            1 <= j <= tlen,
                            tlen == t@.len(),
                            toks == args.deep_view(),
                            toks[k as int] == t@,
                            0 <= k < toks.len(),
                            orig == old(self)@.flags,
                            sh == old(self)@.shorthands,
                            *self == *old(self),
                            old(self).wf(),
                            st_ok(
                                orig,
                                cur_state(fs@, touched@, pos.deep_view(), awaiting, pos_only),
                            ),
                            !stopped ==> awaiting is None && !pos_only,
                            stopped ==> cluster_step(st, sh, t@, 1) == Ok::<ArgsState, FaultView>(
                                cur_state(fs@, touched@, pos.deep_view(), awaiting, pos_only),
                            ),
                            !stopped ==> cluster_step(st, sh, t@, 1) == cluster_step(
                                cur_state(fs@, touched@, pos.deep_view(), awaiting, pos_only),
                                sh,
                                t@,
                                j as int,
                            ),
                            args_step(st, sh, toks[k as int]) == cluster_step(st, sh, t@, 1),
                            args_run(init_args_state(old(self)@), sh, toks, 0) == args_run(
                                st,
                                sh,
                                toks,
                                k as int,
                            ),
                        decreases tlen - j,
                    {
                        let c = t.as_str().get_char(j);
                        match self.find_shorthand(c) {
                            Some(idx) => {
                                proof {
                                    lemma_sh_find_from_some(sh, c, 0);
                                    assert(sh[idx as int].0 == c);
                                    assert(sh[idx as int].1 == self.shorthands@[idx as int].1@);
                                }
                                let sh_name = self.shorthands[idx].1.clone();
                                match find_in(&fs, sh_name.as_str()) {
                                    Some(i) => {
                                        proof {
                                            lemma_find_from_some(views_of(fs@), sh_name@, 0);
                                        }
                                        let ghost fpre = views_of(fs@);
                                        let mut f = fs.remove(i);
                                        if f.value.is_bool() {
                                            f.value.set_true();
                                            let ghost f2 = f@;
                                            fs.insert(i, f);
                                            proof {
                                                assert(views_of(fs@) =~= fpre.update(
                                                    i as int,
                                                    f2,
                                                ));
                                            }
                                        } else {
                                            fs.insert(i, f);
                                            awaiting = Some(i);
                                            stopped = true;
                                            proof {
                                                assert(views_of(fs@) =~= fpre);
                                            }
                                        }
                                        j = j + 1;
                                    },
                                    None => {
                                        proof {
                                            lemma_find_same_shape(orig, views_of(fs@), sh_name@, 0);
                                            assert(spec_find(orig, sh_name@) is None);
                                            assert(false);
                                        }
                                        return vstd::pervasive::unreached();
                                    },
                                }
                            },
                            None => {
                                let mut tok = String::new();
                                tok.push('-');
                                tok.push(c);
                                proof {
                                    assert(tok@ =~= seq!['-', c]);
                                    assert(cluster_step(
                                        cur_state(
                                            fs@,
                                            touched@,
                                            pos.deep_view(),
                                            awaiting,
                                            pos_only,
                                        ),
                                        sh,
                                        t@,
                                        j as int,
                                    ) == Err::<ArgsState, FaultView>(FaultView::UnknownFlag {
                                        token: seq!['-', c],
                                    }));
                                }
                                return Err(LoadFault::UnknownFlag { token: tok });
                            },
                        }
                    }
                    proof {
                        if !stopped {
                            assert(cluster_step(
                                cur_state(fs@, touched@, pos.deep_view(), awaiting, pos_only),
                                sh,
                                t@,
                                j as int,
                            ) == Ok::<ArgsState, FaultView>(
                                cur_state(fs@, touched@, pos.deep_view(), awaiting, pos_only),
                            ));
                        }
                        assert(args_step(st, sh, toks[k as int]) == Ok::<ArgsState, FaultView>(
                            cur_state(fs@, touched@, pos.deep_view(), awaiting, pos_only),
                        ));
                    }
                } else {
                    let ghost ppre = pos.deep_view();
                    pos.push(t.clone());
                    proof {
                        assert(t@ != seq!['-', '-']);
                        assert(t@ != seq!['-']);
                        assert(pos.deep_view() =~= ppre.push(t@));
                        assert(args_step(st, sh, toks[k as int]) == Ok::<ArgsState, FaultView>(
                            cur_state(fs@, touched@, pos.deep_view(), awaiting, pos_only),
                        ));
                    }
                }
            }
            k = k + 1;
        }
        let ghost finalst = cur_state(fs@, touched@, pos.deep_view(), awaiting, pos_only);
        proof {
            assert(args_run(finalst, sh, toks, n as int) == Ok::<ArgsState, FaultView>(finalst));
            lemma_wf_same_shape(old(self)@, finalst.flags);
        }
        let ret = pos.clone();
        proof {
            assert(ret.deep_view() =~= pos.deep_view());
        }
        let ghost prepos = self@.positionals;
        self.flags = fs;
        self.positionals.append(&mut pos);
        proof {
            assert(self@.flags =~= finalst.flags);
            assert(self@.positionals =~= prepos + finalst.positionals);
            assert(self@ == (FlagsView {
                flags: finalst.flags,
                positionals: old(self)@.positionals + finalst.positionals,
                ..old(self)@
            }));
        }
        Ok(ret)
    }
}


/// Whether the delimiter stands at position `k` of the text, and the first
/// such position at or after `k`.
pub open spec fn find_delim_from(s: Seq<char>, d: Seq<char>, k: int) -> Option<int>
    decreases s.len() - k,
{
    if d.len() < 1 || k < 0 || k + d.len() > s.len() {
        None
    } else if s.subrange(k, k + d.len() as int) == d {
        Some(k)
    } else {
        find_delim_from(s, d, k + 1)
    }
}

/// The pieces of the text between occurrences of the delimiter, in order;
/// empty pieces are kept.
pub open spec fn spec_split(s: Seq<char>, d: Seq<char>) -> Seq<Seq<char>>
    decreases s.len(),
    when d.len() >= 1
    via spec_split_dec
{
    match find_delim_from(s, d, 0) {
        None => seq![s],
        Some(k) => seq![s.subrange(0, k)] + spec_split(
            s.subrange(k + d.len() as int, s.len() as int),
            d,
        ),
    }
}

proof fn lemma_find_delim_bounds(s: Seq<char>, d: Seq<char>, k: int)
    requires
        find_delim_from(s, d, k) is Some,
        0 <= k,
        d.len() >= 1,
    ensures
        k <= find_delim_from(s, d, k)->Some_0,
        find_delim_from(s, d, k)->Some_0 + d.len() <= s.len(),
    decreases s.len() - k,
{
    if !(d.len() < 1 || k < 0 || k + d.len() > s.len()) && s.subrange(k, k + d.len() as int)
        != d {
        lemma_find_delim_bounds(s, d, k + 1);
    }
}

#[via_fn]
proof fn spec_split_dec(s: Seq<char>, d: Seq<char>) {
    match find_delim_from(s, d, 0) {
        Some(k) => {
            lemma_find_delim_bounds(s, d, 0);
        },
        None => {},
    }
}

/// Splits the text at every occurrence of the delimiter.
pub fn split_text(s: &str, d: &str) -> (r: Vec<String>)
    requires
        d@.len() >= 1,
    ensures
        r.deep_view() == spec_split(s@, d@),
{
    let slen = s.unicode_len();
    let dlen = d.unicode_len();
    let mut out: Vec<String> = Vec::new();
    let mut start: usize = 0;
    let mut done = false;
    proof {
        assert(s@.subrange(0, slen as int) =~= s@);
        assert(out.deep_view() + spec_split(s@, d@) =~= spec_split(s@, d@));
    }
    while !done
        invariant
            0 <= start <= slen,
            slen == s@.len(),
            dlen == d@.len(),
            dlen >= 1,
            !done ==> spec_split(s@, d@) == out.deep_view() + spec_split(
                s@.subrange(start as int, slen as int),
                d@,
            ),
            done ==> out.deep_view() == spec_split(s@, d@),
        decreases slen - start + (if done { 0int } else { 1 }),
    {
        let ghost suf = s@.subrange(start as int, slen as int);
        let mut k = start;
        let mut found: Option<usize> = None;
        while k <= slen && slen - k >= dlen && found.is_none()
            invariant
                start <= k,
                k <= slen + 1,
                slen == s@.len(),
                dlen == d@.len(),
                dlen >= 1,
                0 <= start <= slen,
                suf == s@.subrange(start as int, slen as int),
                match found {
                    Some(f) => start <= f && f + dlen <= slen && find_delim_from(suf, d@, 0)
                        == Some(f - start as int),
                    None => find_delim_from(suf, d@, 0) == find_delim_from(
                        suf,
                        d@,
                        k - start as int,
                    ),
                },
            decreases slen + 1 - k + (if found is Some { 0int } else { 1 }),
        {
            let piece = s.substring_char(k, k + dlen);
            proof {
                assert(piece@ =~= s@.subrange(k as int, k as int + dlen));
                assert(suf.subrange(k - start as int, k - start as int + dlen) =~= s@.subrange(
                    k as int,
                    k as int + dlen,
                ));
            }
            if crate::text::str_eq(piece, d) {
                found = Some(k);
            } else {
                k = k + 1;
            }
        }
        match found {
            Some(f) => {
                let piece = s.substring_char(start, f);
                out.push(piece.to_owned());
                proof {
                    let ghost m = f - start as int;
                    assert(piece@ =~= suf.subrange(0, m));
                    assert(out.deep_view() =~= out.deep_view().subrange(
                        0,
                        out.deep_view().len() - 1,
                    ).push(suf.subrange(0, m)));
                    assert(s@.subrange(f as int + dlen, slen as int) =~= suf.subrange(
                        m + dlen,
                        suf.len() as int,
                    ));
                    assert(spec_split(suf, d@) == seq![suf.subrange(0, m)] + spec_split(
                        suf.subrange(m + dlen, suf.len() as int),
                        d@,
                    ));
                    assert(out.deep_view() + spec_split(
                        s@.subrange(f + dlen, slen as int),
                        d@,
                    ) =~= out.deep_view().subrange(0, out.deep_view().len() - 1) + (seq![
                        suf.subrange(0, m),
                    ] + spec_split(suf.subrange(m + dlen, suf.len() as int), d@)));
                }
                start = f + dlen;
            },
            None => {
                proof {
                    assert(find_delim_from(suf, d@, 0) is None) by {
                        if find_delim_from(suf, d@, 0) is Some {
                            lemma_find_delim_bounds(suf, d@, 0);
                            let m = find_delim_from(suf, d@, 0)->Some_0;
                            assert(find_delim_from(suf, d@, k - start as int) == Some(m));
                        }
                    };
                    assert(spec_split(suf, d@) == seq![suf]);
                }
                let piece = s.substring_char(start, slen);
                out.push(piece.to_owned());
                proof {
                    assert(piece@ =~= suf);
                    assert(out.deep_view() =~= out.deep_view().subrange(
                        0,
                        out.deep_view().len() - 1,
                    ) + seq![suf]);
                }
                done = true;
            },
        }
    }
    out
}

/// The value of the first environment entry of this name, if any.
pub open spec fn env_lookup_from(
    vars: Seq<(Seq<char>, Seq<char>)>,
    name: Seq<char>,
    i: int,
) -> Option<Seq<char>>
    decreases vars.len() - i,
{
    if i < 0 || i >= vars.len() {
        None
    } else if vars[i].0 == name {
        Some(vars[i].1)
    } else {
        env_lookup_from(vars, name, i + 1)
    }
}

fn env_lookup_in(vars: &Vec<(String, String)>, name: &str) -> (r: Option<usize>)
    ensures
        match r {
            Some(i) => 0 <= i < vars@.len() && env_lookup_from(vars.deep_view(), name@, 0) == Some(
                vars.deep_view()[i as int].1,
            ),
            None => env_lookup_from(vars.deep_view(), name@, 0) is None,
        },
{
    let n = vars.len();
    let mut k: usize = 0;
    while k < n
        invariant
            0 <= k <= n,
            n == vars@.len(),
            vars.deep_view().len() == n,
            env_lookup_from(vars.deep_view(), name@, 0) == env_lookup_from(
                vars.deep_view(),
                name@,
                k as int,
            ),
        decreases n - k,
    {
        proof {
            assert(vars.deep_view()[k as int] == (vars@[k as int].0@, vars@[k as int].1@));
        }
        if crate::text::str_eq(vars[k].0.as_str(), name) {
            return Some(k);
        }
        k = k + 1;
    }
    None
}

/// Element texts applied to an array value one after the other, from
/// position `e` on; `None` where any one does not parse.
pub open spec fn apply_elems(v: ValueView, elems: Seq<Seq<char>>, e: int) -> Option<ValueView>
    decreases elems.len() - e,
{
    if e < 0 || e >= elems.len() {
        Some(v)
    } else {
        match view_parse_and_set(v, elems[e]) {
            Some(v2) => apply_elems(v2, elems, e + 1),
            None => None,
        }
    }
}

proof fn lemma_apply_elems_tag(v: ValueView, elems: Seq<Seq<char>>, e: int)
    ensures
        apply_elems(v, elems, e) matches Some(v2) ==> view_tag(v2) == view_tag(v),
    decreases elems.len() - e,
{
    if 0 <= e < elems.len() {
        crate::value::lemma_parse_set_tag(v, elems[e]);
        match view_parse_and_set(v, elems[e]) {
            Some(v2) => {
                lemma_apply_elems_tag(v2, elems, e + 1);
            },
            None => {},
        }
    }
}

/// What the environment does to the flag at position `i`: a scalar is
/// parsed and replaced; an array with a delimiter is reset and filled from
/// the split pieces; an array without one is skipped with a warning.
pub open spec fn env_step(
    fs: Seq<FlagView>,
    i: int,
    vars: Seq<(Seq<char>, Seq<char>)>,
) -> Result<(Seq<FlagView>, Seq<WarningView>), FaultView> {
    let f = fs[i];
    match env_lookup_from(vars, env_name(f.name), 0) {
        None => Ok((fs, Seq::empty())),
        Some(raw) => if !is_array_tag(view_tag(f.value)) {
            match view_parse_and_set(f.value, raw) {
                Some(v2) => Ok(
                    (fs.update(i, FlagView { value: v2, ..f }), Seq::empty()),
                ),
                None => Err(FaultView::ParseFailure { flag: f.name, text: raw }),
            }
        } else {
            match f.env_delimiter {
                None => Ok((fs, seq![WarningView::NoDelimiter { flag: f.name }])),
                Some(d) => match apply_elems(view_clear(f.value), spec_split(raw, d), 0) {
                    Some(v2) => Ok(
                        (fs.update(i, FlagView { value: v2, ..f }), Seq::empty()),
                    ),
                    None => Err(FaultView::ParseFailure { flag: f.name, text: raw }),
                },
            }
        },
    }
}

/// The environment phase, from flag position `i` on, accumulating
/// warnings.
pub open spec fn env_run(
    fs: Seq<FlagView>,
    vars: Seq<(Seq<char>, Seq<char>)>,
    i: int,
    ws: Seq<WarningView>,
) -> Result<(Seq<FlagView>, Seq<WarningView>), FaultView>
    decreases fs.len() - i,
{
    if i < 0 || i >= fs.len() {
        Ok((fs, ws))
    } else {
        match env_step(fs, i, vars) {
            Ok(pair) => env_run(pair.0, vars, i + 1, ws + pair.1),
            Err(f) => Err(f),
        }
    }
}

/// What the environment phase does to a registry: every registered flag,
/// in registration order, reads its derived variable if it is present.
pub open spec fn spec_parse_env(v: FlagsView, vars: Seq<(Seq<char>, Seq<char>)>) -> Result<
    FlagsView,
    FaultView,
> {
    match env_run(v.flags, vars, 0, Seq::empty()) {
        Ok(pair) => Ok(FlagsView { flags: pair.0, warnings: v.warnings + pair.1, ..v }),
        Err(f) => Err(f),
    }
}


impl Flags {
    /// The environment phase: every registered flag, in registration order,
    /// reads its derived variable from the mapping if one is present — a
    /// scalar parses the raw text, an array flag with a delimiter is reset
    /// and filled from the split pieces, and an array flag without one is
    /// skipped with a warning. The first unparseable value is the fault; on
    /// a fault nothing is changed.
    pub fn parse_env(&mut self, vars: &Vec<(String, String)>) -> (r: Result<(), LoadFault>)
        requires
            old(self).wf(),
        ensures
            final(self).wf(),
            match r {
                Ok(()) => spec_parse_env(old(self)@, vars.deep_view()) == Ok::<
                    FlagsView,
                    FaultView,
                >(final(self)@),
                Err(f) => spec_parse_env(old(self)@, vars.deep_view()) == Err::<
                    FlagsView,
                    FaultView,
                >(f@) && *final(self) == *old(self),
            },
    {
        let ghost vv = vars.deep_view();
        let ghost orig = old(self)@.flags;
        let mut fs = clone_flags(&self.flags);
        let mut wlist: Vec<Warning> = Vec::new();
        let count = fs.len();
        proof {
            assert(views_of(fs@) =~= orig);
            assert(wlist@.map_values(|w: Warning| w@) =~= Seq::<WarningView>::empty());
        }
        let mut i: usize = 0;
        while i < count
            invariant
                0 <= i <= count,
                count == fs@.len(),
                vv == vars.deep_view(),
                orig == old(self)@.flags,
                *self == *old(self),
                old(self).wf(),
                same_shape(orig, views_of(fs@)),
                env_run(orig, vv, 0, Seq::empty()) == env_run(
                    views_of(fs@),
                    vv,
                    i as int,
                    wlist@.map_values(|w: Warning| w@),
                ),
            decreases count - i,
        {
            let ghost curfs = views_of(fs@);
            let ghost ws = wlist@.map_values(|w: Warning| w@);
            let name = fs[i].env_var_name();
            proof {
                assert(curfs[i as int] == fs@[i as int]@);
            }
            match env_lookup_in(vars, name.as_str()) {
                None => {
                    proof {
                        assert(env_step(curfs, i as int, vv) == Ok::<
                            (Seq<FlagView>, Seq<WarningView>),
                            FaultView,
                        >((curfs, Seq::empty())));
                        assert(ws + Seq::<WarningView>::empty() =~= ws);
                    }
                },
                Some(vi) => {
                    let raw = vars[vi].1.clone();
                    proof {
                        assert(vars.deep_view()[vi as int] == (
                            vars@[vi as int].0@,
                            vars@[vi as int].1@,
                        ));
                        assert(raw@ == vv[vi as int].1);
                    }
                    if !fs[i].value.is_vec() {
                        let ghost fpre = views_of(fs@);
                        let mut f = fs.remove(i);
                        let fname = f.name.clone();
                        match f.value.parse_and_set(raw.as_str()) {
                            Ok(()) => {
                                let ghost f2 = f@;
                                fs.insert(i, f);
                                proof {
                                    assert(views_of(fs@) =~= fpre.update(i as int, f2));
                                    crate::value::lemma_parse_set_tag(fpre[i as int].value, raw@);
                                    assert(env_step(curfs, i as int, vv) == Ok::<
                                        (Seq<FlagView>, Seq<WarningView>),
                                        FaultView,
                                    >((views_of(fs@), Seq::empty())));
                                    assert(ws + Seq::<WarningView>::empty() =~= ws);
                                    assert(same_shape(orig, views_of(fs@)));
                                }
                            },
                            Err(_) => {
                                proof {
                                    assert(env_step(curfs, i as int, vv) == Err::<
                                        (Seq<FlagView>, Seq<WarningView>),
                                        FaultView,
                                    >(
                                        FaultView::ParseFailure {
                                            flag: curfs[i as int].name,
                                            text: raw@,
                                        },
                                    ));
                                }
                                return Err(LoadFault::ParseFailure { flag: fname, text: raw });
                            },
                        }
                    } else {
                        let has_delim = fs[i].env_delimiter.is_some();
                        if !has_delim {
                            let fname = fs[i].name.clone();
                            let ghost wpre = wlist@.map_values(|w: Warning| w@);
                            wlist.push(Warning::NoDelimiter { flag: fname });
                            proof {
                                assert(wlist@.map_values(|w: Warning| w@) =~= wpre.push(
                                    WarningView::NoDelimiter { flag: curfs[i as int].name },
                                ));
                                assert(env_step(curfs, i as int, vv) == Ok::<
                                    (Seq<FlagView>, Seq<WarningView>),
                                    FaultView,
                                >(
                                    (
                                        curfs,
                                        seq![
                                            WarningView::NoDelimiter {
                                                flag: curfs[i as int].name,
                                            },
                                        ],
                                    ),
                                ));
                                assert(wpre.push(
                                    WarningView::NoDelimiter { flag: curfs[i as int].name },
                                ) =~= wpre + seq![
                                    WarningView::NoDelimiter { flag: curfs[i as int].name },
                                ]);
                            }
                        } else {
                            let d = match &fs[i].env_delimiter {
                                Some(d) => d.clone(),
                                None => vstd::pervasive::unreached(),
                            };
                            proof {
                                assert(shape_eq(orig[i as int], curfs[i as int]));
                                assert(flag_wf(orig[i as int]));
                                assert(curfs[i as int].env_delimiter == Some(d@));
                                assert(d@.len() > 0);
                            }
                            let pieces = split_text(raw.as_str(), d.as_str());
                            let ghost fpre = views_of(fs@);
                            let mut f = fs.remove(i);
                            let fname = f.name.clone();
                            f.value.clear();
                            let ghost startv = f.value@;
                            let ghost fsnap = f@;
                            let m = pieces.len();
                            let mut e: usize = 0;
                            let mut bad = false;
                            while e < m && !bad
                                invariant
                                    0 <= e <= m,
                                    m == pieces@.len(),
                                    pieces.deep_view().len() == m,
                                    f@ == (FlagView { value: f.value@, ..fsnap }),
                                    !bad ==> apply_elems(startv, pieces.deep_view(), 0)
                                        == apply_elems(f.value@, pieces.deep_view(), e as int),
                                    bad ==> apply_elems(startv, pieces.deep_view(), 0) is None,
                                    view_tag(f.value@) == view_tag(startv),
                                decreases m - e, (if bad {
                                    0int
                                } else {
                                    1
                                }),
                            {
                                let ghost vpre = f.value@;
                                match f.value.parse_and_set(pieces[e].as_str()) {
                                    Ok(()) => {
                                        proof {
                                            assert(pieces.deep_view()[e as int]
                                                == pieces@[e as int]@);
                                            crate::value::lemma_parse_set_tag(
                                                vpre,
                                                pieces.deep_view()[e as int],
                                            );
                                        }
                                        e = e + 1;
                                    },
                                    Err(_) => {
                                        proof {
                                            assert(pieces.deep_view()[e as int]
                                                == pieces@[e as int]@);
                                        }
                                        bad = true;
                                    },
                                }
                            }
                            if bad {
                                proof {
                                    assert(startv == view_clear(curfs[i as int].value));
                                    assert(pieces.deep_view() == spec_split(raw@, d@));
                                    assert(env_step(curfs, i as int, vv) == Err::<
                                        (Seq<FlagView>, Seq<WarningView>),
                                        FaultView,
                                    >(
                                        FaultView::ParseFailure {
                                            flag: curfs[i as int].name,
                                            text: raw@,
                                        },
                                    ));
                                }
                                return Err(LoadFault::ParseFailure { flag: fname, text: raw });
                            }
                            let ghost f2 = f@;
                            fs.insert(i, f);
                            proof {
                                assert(views_of(fs@) =~= fpre.update(i as int, f2));
                                assert(startv == view_clear(curfs[i as int].value));
                                assert(pieces.deep_view() == spec_split(raw@, d@));
                                assert(apply_elems(startv, pieces.deep_view(), 0) == Some::<
                                    ValueView,
                                >(f2.value));
                                assert(env_step(curfs, i as int, vv) == Ok::<
                                    (Seq<FlagView>, Seq<WarningView>),
                                    FaultView,
                                >((views_of(fs@), Seq::empty())));
                                assert(ws + Seq::<WarningView>::empty() =~= ws);
                                assert(same_shape(orig, views_of(fs@)));
                            }
                        }
                    }
                },
            }
            i = i + 1;
        }
        proof {
            assert(env_run(
                views_of(fs@),
                vv,
                count as int,
                wlist@.map_values(|w: Warning| w@),
            ) == Ok::<(Seq<FlagView>, Seq<WarningView>), FaultView>(
                (views_of(fs@), wlist@.map_values(|w: Warning| w@)),
            ));
            lemma_wf_same_shape(old(self)@, views_of(fs@));
        }
        let ghost prew = self@.warnings;
        let ghost neww = wlist@.map_values(|w: Warning| w@);
        self.flags = fs;
        self.warnings.append(&mut wlist);
        proof {
            assert(self@.warnings =~= prew + neww);
            assert(self@ == (FlagsView {
                flags: views_of(fs@),
                warnings: old(self)@.warnings + neww,
                ..old(self)@
            }));
        }
        Ok(())
    }
}


/// One config file's entries, from position `j` on: each key must name a
/// registered flag and its value must fit that flag's shape; the first
/// offending entry stops this file with a warning, earlier entries stand.
/// Array values follow the reset-then-append rule under the phase's shared
/// touched set.
pub open spec fn entries_run(
    fs: Seq<FlagView>,
    touched: Seq<bool>,
    entries: Seq<(String, JsonVal)>,
    j: int,
    fileidx: usize,
) -> (Seq<FlagView>, Seq<bool>, Seq<WarningView>)
    decreases entries.len() - j,
{
    if j < 0 || j >= entries.len() {
        (fs, touched, Seq::empty())
    } else {
        let key = entries[j].0@;
        let jv = entries[j].1;
        match spec_find(fs, key) {
            None => (
                fs,
                touched,
                seq![WarningView::UnknownProperty { index: fileidx, key: key }],
            ),
            Some(i) => {
                let f = fs[i];
                let base = if is_array_tag(view_tag(f.value)) && !touched[i] {
                    view_clear(f.value)
                } else {
                    f.value
                };
                match view_set_json(base, jv) {
                    None => (
                        fs,
                        touched,
                        seq![WarningView::TypeMismatch { index: fileidx, key: key }],
                    ),
                    Some(v2) => entries_run(
                        fs.update(i, FlagView { value: v2, ..f }),
                        touched.update(i, true),
                        entries,
                        j + 1,
                        fileidx,
                    ),
                }
            },
        }
    }
}

/// One config file: a missing text or one that is not a JSON object is a
/// warning; an object has its entries applied in order.
pub open spec fn file_step(
    fs: Seq<FlagView>,
    touched: Seq<bool>,
    text: Option<Seq<char>>,
    fileidx: usize,
) -> (Seq<FlagView>, Seq<bool>, Seq<WarningView>) {
    match text {
        None => (fs, touched, seq![WarningView::FileUnreadable { index: fileidx }]),
        Some(txt) => match json_doc_of_text(txt) {
            Some(doc) => match doc {
                JsonVal::Obj(entries) => entries_run(fs, touched, entries@, 0, fileidx),
                _ => (fs, touched, seq![WarningView::MalformedJson { index: fileidx }]),
            },
            None => (fs, touched, seq![WarningView::MalformedJson { index: fileidx }]),
        },
    }
}

/// The config phase over all file texts, from file `x` on: the touched set
/// is shared by the whole phase, so a later file appends to an array a
/// former file wrote. Nothing here aborts a load.
pub open spec fn files_run(
    fs: Seq<FlagView>,
    touched: Seq<bool>,
    texts: Seq<Option<Seq<char>>>,
    x: int,
    ws: Seq<WarningView>,
) -> (Seq<FlagView>, Seq<bool>, Seq<WarningView>)
    decreases texts.len() - x,
{
    if x < 0 || x >= texts.len() {
        (fs, touched, ws)
    } else {
        let r = file_step(fs, touched, texts[x], x as usize);
        files_run(r.0, r.1, texts, x + 1, ws + r.2)
    }
}

/// What the config phase does to a registry.
pub open spec fn spec_load_files(v: FlagsView, texts: Seq<Option<Seq<char>>>) -> FlagsView {
    let r = files_run(v.flags, Seq::new(v.flags.len(), |i: int| false), texts, 0, Seq::empty());
    FlagsView { flags: r.0, warnings: v.warnings + r.2, ..v }
}

/// What a whole load does to a registry: config files, then environment,
/// then arguments, each phase overriding the former; the state after the
/// phases that ran, and the fault of the phase that stopped it, if one did.
pub open spec fn spec_load(
    v: FlagsView,
    texts: Seq<Option<Seq<char>>>,
    vars: Seq<(Seq<char>, Seq<char>)>,
    toks: Seq<Seq<char>>,
) -> (FlagsView, Option<FaultView>) {
    let v1 = spec_load_files(v, texts);
    match spec_parse_env(v1, vars) {
        Err(f) => (v1, Some(f)),
        Ok(v2) => match spec_parse_args(v2, toks) {
            Err(f) => (v2, Some(f)),
            Ok(v3) => (v3, None),
        },
    }
}


impl Flags {
    /// The config phase: each file text, in registration order, must be a
    /// JSON object whose keys name registered flags and whose values fit
    /// their flags' shapes. A missing file, a malformed text, an unknown key
    /// or an ill-fitting value is a warning — never a fault — and stops that
    /// file alone; entries before it stand. The touched set is shared by the
    /// phase, so a later file appends to an array flag a former file set.
    pub fn load_files(&mut self, file_texts: &Vec<Option<String>>)
        requires
            old(self).wf(),
        ensures
            final(self).wf(),
            final(self)@ == spec_load_files(old(self)@, file_texts.deep_view()),
    {
        let ghost texts = file_texts.deep_view();
        let flag_count = self.flags.len();
        let mut touched: Vec<bool> = Vec::new();
        while touched.len() < flag_count
            invariant
                touched@ =~= Seq::new(touched@.len() as nat, |i: int| false),
                touched@.len() <= flag_count,
            decreases flag_count - touched@.len(),
        {
            touched.push(false);
        }
        let ghost mut wacc = Seq::<WarningView>::empty();
        proof {
            assert(touched@ =~= Seq::new(old(self)@.flags.len(), |i: int| false));
            assert(self@.warnings =~= old(self)@.warnings + wacc);
        }
        let n = file_texts.len();
        let mut x: usize = 0;
        while x < n
            invariant
                0 <= x <= n,
                n == file_texts@.len(),
                texts == file_texts.deep_view(),
                texts.len() == n,
                touched@.len() == self.flags@.len(),
                old(self).wf(),
                same_shape(old(self)@.flags, views_of(self.flags@)),
                self@.shorthands == old(self)@.shorthands,
                self@.config_files == old(self)@.config_files,
                self@.positionals == old(self)@.positionals,
                self@.warnings == old(self)@.warnings + wacc,
                files_run(
                    old(self)@.flags,
                    Seq::new(old(self)@.flags.len(), |i: int| false),
                    texts,
                    0,
                    Seq::empty(),
                ) == files_run(views_of(self.flags@), touched@, texts, x as int, wacc),
            decreases n - x,
        {
            let ghost f0 = views_of(self.flags@);
            let ghost t0 = touched@;
            let mut wfile: Vec<Warning> = Vec::new();
            match &file_texts[x] {
                None => {
                    proof {
                        assert(texts[x as int] is None);
                    }
                    wfile.push(Warning::FileUnreadable { index: x });
                    proof {
                        assert(wfile@.map_values(|w: Warning| w@) =~= seq![
                            WarningView::FileUnreadable { index: x },
                        ]);
                        assert(file_step(f0, t0, texts[x as int], x) == (
                            f0,
                            t0,
                            wfile@.map_values(|w: Warning| w@),
                        ));
                    }
                },
                Some(txt) => {
                    proof {
                        assert(texts[x as int] == Some(txt@));
                    }
                    match crate::json::parse_json_text(txt.as_str()) {
                        None => {
                            wfile.push(Warning::MalformedJson { index: x });
                            proof {
                                assert(wfile@.map_values(|w: Warning| w@) =~= seq![
                                    WarningView::MalformedJson { index: x },
                                ]);
                                assert(file_step(f0, t0, texts[x as int], x) == (
                                    f0,
                                    t0,
                                    wfile@.map_values(|w: Warning| w@),
                                ));
                            }
                        },
                        Some(doc) => match doc {
                            JsonVal::Obj(entries) => {
                                let m = entries.len();
                                let mut j: usize = 0;
                                let mut stopf = false;
                                while j < m && !stopf
                                    invariant
                                        0 <= j <= m,
                                        m == entries@.len(),
                                        0 <= x < texts.len(),
                                        touched@.len() == self.flags@.len(),
                                        old(self).wf(),
                                        same_shape(old(self)@.flags, views_of(self.flags@)),
                                        self@.shorthands == old(self)@.shorthands,
                                        self@.config_files == old(self)@.config_files,
                                        self@.positionals == old(self)@.positionals,
                                        self@.warnings == old(self)@.warnings + wacc,
                                        !stopf ==> entries_run(f0, t0, entries@, 0, x)
                                            == entries_run(
                                            views_of(self.flags@),
                                            touched@,
                                            entries@,
                                            j as int,
                                            x,
                                        ) && wfile@.len() == 0,
                                        stopf ==> entries_run(f0, t0, entries@, 0, x) == (
                                            views_of(self.flags@),
                                            touched@,
                                            wfile@.map_values(|w: Warning| w@),
                                        ),
                                    decreases m - j, (if stopf {
                                        0int
                                    } else {
                                        1
                                    }),
                                {
                                    let ghost curfs = views_of(self.flags@);
                                    let key = entries[j].0.clone();
                                    proof {
                                        assert(entries@[j as int].0@ == key@);
                                    }
                                    match find_in(&self.flags, key.as_str()) {
                                        None => {
                                            wfile.push(
                                                Warning::UnknownProperty { index: x, key: key },
                                            );
                                            stopf = true;
                                            proof {
                                                assert(wfile@.map_values(|w: Warning| w@) =~= seq![
                                                    WarningView::UnknownProperty {
                                                        index: x,
                                                        key: entries@[j as int].0@,
                                                    },
                                                ]);
                                            }
                                        },
                                        Some(i) => {
                                            proof {
                                                lemma_find_from_some(curfs, key@, 0);
                                            }
                                            let reset = self.flags[i].value.is_vec()
                                                && !touched[i];
                                            let ghost fpre = views_of(self.flags@);
                                            let mut f = self.flags.remove(i);
                                            let saved = f.value.clone();
                                            if reset {
                                                f.value.clear();
                                            }
                                            if f.value.try_set_json(&entries[j].1) {
                                                let ghost f2 = f@;
                                                self.flags.insert(i, f);
                                                touched.set(i, true);
                                                proof {
                                                    assert(views_of(self.flags@) =~= fpre.update(
                                                        i as int,
                                                        f2,
                                                    ));
                                                    crate::value::lemma_set_json_tag(
                                                        if reset {
                                                            view_clear(fpre[i as int].value)
                                                        } else {
                                                            fpre[i as int].value
                                                        },
                                                        entries@[j as int].1,
                                                    );
                                                    assert(same_shape(
                                                        old(self)@.flags,
                                                        views_of(self.flags@),
                                                    ));
                                                }
                                            } else {
                                                f.value = saved;
                                                self.flags.insert(i, f);
                                                wfile.push(
                                                    Warning::TypeMismatch { index: x, key: key },
                                                );
                                                stopf = true;
                                                proof {
                                                    assert(views_of(self.flags@) =~= fpre);
                                                    assert(wfile@.map_values(|w: Warning| w@)
                                                        =~= seq![
                                                        WarningView::TypeMismatch {
                                                            index: x,
                                                            key: entries@[j as int].0@,
                                                        },
                                                    ]);
                                                }
                                            }
                                        },
                                    }
                                    j = j + 1;
                                }
                                proof {
                                    if !stopf {
                                        assert(entries_run(
                                            views_of(self.flags@),
                                            touched@,
                                            entries@,
                                            j as int,
                                            x,
                                        ) == (
                                            views_of(self.flags@),
                                            touched@,
                                            Seq::<WarningView>::empty(),
                                        ));
                                        assert(wfile@.map_values(|w: Warning| w@)
                                            =~= Seq::<WarningView>::empty());
                                    }
                                    assert(file_step(f0, t0, texts[x as int], x) == (
                                        views_of(self.flags@),
                                        touched@,
                                        wfile@.map_values(|w: Warning| w@),
                                    ));
                                }
                            },
                            JsonVal::Null => {
                                wfile.push(Warning::MalformedJson { index: x });
                                proof {
                                    assert(wfile@.map_values(|w: Warning| w@) =~= seq![
                                        WarningView::MalformedJson { index: x },
                                    ]);
                                }
                            },
                            JsonVal::Bool(_) => {
                                wfile.push(Warning::MalformedJson { index: x });
                                proof {
                                    assert(wfile@.map_values(|w: Warning| w@) =~= seq![
                                        WarningView::MalformedJson { index: x },
                                    ]);
                                }
                            },
                            JsonVal::Num(_) => {
                                wfile.push(Warning::MalformedJson { index: x });
                                proof {
                                    assert(wfile@.map_values(|w: Warning| w@) =~= seq![
                                        WarningView::MalformedJson { index: x },
                                    ]);
                                }
                            },
                            JsonVal::Str(_) => {
                                wfile.push(Warning::MalformedJson { index: x });
                                proof {
                                    assert(wfile@.map_values(|w: Warning| w@) =~= seq![
                                        WarningView::MalformedJson { index: x },
                                    ]);
                                }
                            },
                            JsonVal::Arr(_) => {
                                wfile.push(Warning::MalformedJson { index: x });
                                proof {
                                    assert(wfile@.map_values(|w: Warning| w@) =~= seq![
                                        WarningView::MalformedJson { index: x },
                                    ]);
                                }
                            },
                        },
                    }
                },
            }
            let ghost wf_this = wfile@.map_values(|w: Warning| w@);
            proof {
                assert(file_step(f0, t0, texts[x as int], x) == (
                    views_of(self.flags@),
                    touched@,
                    wf_this,
                ));
            }
            let ghost wpre = self@.warnings;
            self.warnings.append(&mut wfile);
            proof {
                assert(self@.warnings =~= wpre + wf_this);
                wacc = wacc + wf_this;
                assert(self@.warnings =~= old(self)@.warnings + wacc);
            }
            x = x + 1;
        }
        proof {
            assert(files_run(views_of(self.flags@), touched@, texts, n as int, wacc) == (
                views_of(self.flags@),
                touched@,
                wacc,
            ));
            lemma_wf_same_shape(old(self)@, views_of(self.flags@));
            assert(self@ == spec_load_files(old(self)@, texts));
        }
    }

    /// The whole load: config files, then environment variables, then
    /// command-line arguments, in that fixed order, each phase able to
    /// overwrite what the former set. Config-file problems are warnings and
    /// never interrupt; the first environment or argument fault aborts the
    /// load and is handed back, leaving the phases that had completed in
    /// force. On success the captured positionals are handed back.
    pub fn load(
        &mut self,
        file_texts: &Vec<Option<String>>,
        env_vars: &Vec<(String, String)>,
        args: &Vec<String>,
    ) -> (r: Result<Vec<String>, LoadFault>)
        requires
            old(self).wf(),
            file_texts@.len() == old(self)@.config_files.len(),
        ensures
            final(self).wf(),
            match r {
                Ok(pos) => spec_load(
                    old(self)@,
                    file_texts.deep_view(),
                    env_vars.deep_view(),
                    args.deep_view(),
                ) == (final(self)@, None::<FaultView>) && final(self)@.positionals == old(
                    self,
                )@.positionals + pos.deep_view(),
                Err(f) => spec_load(
                    old(self)@,
                    file_texts.deep_view(),
                    env_vars.deep_view(),
                    args.deep_view(),
                ) == (final(self)@, Some(f@)),
            },
    {
        self.load_files(file_texts);
        let ghost v1 = self@;
        match self.parse_env(env_vars) {
            Err(f) => {
                return Err(f);
            },
            Ok(()) => {},
        }
        let ghost v2 = self@;
        match self.parse_args(args) {
            Err(f) => Err(f),
            Ok(pos) => {
                proof {
                    assert(v2.positionals == old(self)@.positionals);
                }
                Ok(pos)
            },
        }
    }
}

} // verus!

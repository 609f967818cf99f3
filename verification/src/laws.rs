//! The engine's laws: what the three-phase merge guarantees, stated and
//! proved once and for all inputs.

use vstd::prelude::*;
use crate::flag::{FlagView, flag_wf, valid_name, env_name};
use crate::value::{
    ValueView, Tag, view_tag, is_array_tag, view_clear, view_parse_and_set, view_set_json,
};
use crate::fault::{FaultView, WarningView};
use crate::registry::{
    FlagsView, spec_find, flags_wf, lemma_find_from_some, lemma_find_from_none,
};
use crate::load::{
    ArgsState, args_step, args_run, init_args_state, spec_parse_args, write_text, entries_run,
    file_step, files_run, spec_load_files, env_run, env_step, env_lookup_from, spec_parse_env,
    spec_load,
};
use crate::json::{JsonVal, json_doc_of_text};
use crate::text::{is_name_char, env_char};

verus! {

/// In a well-formed registry the flag at any position is the one its own
/// name finds.
pub proof fn lemma_find_unique(fs: Seq<FlagView>, i: int)
    requires
        0 <= i < fs.len(),
        forall|a: int, b: int|
            0 <= a < fs.len() && 0 <= b < fs.len() && a != b ==> (#[trigger] fs[a]).name != (
            #[trigger] fs[b]).name,
    ensures
        spec_find(fs, fs[i].name) == Some(i),
{
    if spec_find(fs, fs[i].name) is None {
        lemma_find_from_none(fs, fs[i].name, 0);
        assert(fs[i].name != fs[i].name);
    }
    lemma_find_from_some(fs, fs[i].name, 0);
    let k = spec_find(fs, fs[i].name)->Some_0;
    if k != i {
        assert(fs[k].name != fs[i].name);
    }
}

/// Whether a text parses, and what scalar it parses to, depend on the
/// value's shape alone, never on the value it replaces.
pub proof fn lemma_parse_indep(v1: ValueView, v2: ValueView, s: Seq<char>)
    requires
        view_tag(v1) == view_tag(v2),
        !is_array_tag(view_tag(v1)),
    ensures
        view_parse_and_set(v1, s) == view_parse_and_set(v2, s),
{
}

/// Law: an unknown long flag is a fault. A lone token that starts with
/// `--`, is not the bare terminator, and whose name no registered flag
/// carries makes the whole argument walk fail with exactly
/// `UnknownFlag` holding that token.
pub proof fn lemma_unknown_long_flag(v: FlagsView, t: Seq<char>)
    requires
        t.len() >= 3,
        t[0] == '-',
        t[1] == '-',
        spec_find(v.flags, t.subrange(2, t.len() as int)) is None,
    ensures
        spec_parse_args(v, seq![t]) == Err::<FlagsView, FaultView>(
            FaultView::UnknownFlag { token: t },
        ),
{
    let st = init_args_state(v);
    assert(t != seq!['-', '-']);
    assert(t != seq!['-']);
    assert(args_step(st, v.shorthands, t) == Err::<ArgsState, FaultView>(
        FaultView::UnknownFlag { token: t },
    ));
    assert(seq![t][0] == t);
}

/// Law: an unknown shorthand letter is a fault. A lone `-c` token whose
/// letter no registered flag carries makes the whole argument walk fail
/// with exactly `UnknownFlag` holding `-c`.
pub proof fn lemma_unknown_shorthand(v: FlagsView, c: char)
    requires
        c != '-',
        crate::registry::spec_sh_find(v.shorthands, c) is None,
    ensures
        spec_parse_args(v, seq![seq!['-', c]]) == Err::<FlagsView, FaultView>(
            FaultView::UnknownFlag { token: seq!['-', c] },
        ),
{
    let st = init_args_state(v);
    let t = seq!['-', c];
    assert(t != seq!['-', '-']);
    assert(t != seq!['-']);
    assert(t.len() == 2 && t[0] == '-' && t[1] == c);
    assert(crate::load::cluster_step(st, v.shorthands, t, 1) == Err::<ArgsState, FaultView>(
        FaultView::UnknownFlag { token: seq!['-', t[1]] },
    ));
    assert(args_step(st, v.shorthands, t) == Err::<ArgsState, FaultView>(
        FaultView::UnknownFlag { token: t },
    ));
    assert(seq![t][0] == t);
}

/// Law: within one argument list, the first occurrence of an array flag
/// resets it and the second appends, whatever the array held before. With
/// `--name a1 --name a2` the flag ends holding exactly the two parsed
/// elements, in order.
pub proof fn lemma_array_args_reset_then_append(
    v: FlagsView,
    i: int,
    a1: Seq<char>,
    a2: Seq<char>,
)
    requires
        flags_wf(v),
        0 <= i < v.flags.len(),
        is_array_tag(view_tag(v.flags[i].value)),
        view_parse_and_set(view_clear(v.flags[i].value), a1) is Some,
        view_parse_and_set(
            view_parse_and_set(view_clear(v.flags[i].value), a1)->Some_0,
            a2,
        ) is Some,
    ensures
        ({
            let name = v.flags[i].name;
            let t = seq!['-', '-'] + name;
            let toks = seq![t, a1, t, a2];
            let e1 = view_parse_and_set(view_clear(v.flags[i].value), a1)->Some_0;
            let e2 = view_parse_and_set(e1, a2)->Some_0;
            spec_parse_args(v, toks) matches Ok(out) && out.flags[i].value == e2
        }),
{
    let name = v.flags[i].name;
    let t = seq!['-', '-'] + name;
    let toks = seq![t, a1, t, a2];
    let sh = v.shorthands;
    let st0 = init_args_state(v);
    assert(flag_wf(v.flags[i]));
    assert(valid_name(name));
    assert(name.len() >= 1);
    assert(is_name_char(name[0]));
    // token 0: "--name" puts the walk in the awaiting state
    assert(t.len() == name.len() + 2 && t[0] == '-' && t[1] == '-');
    assert(t != seq!['-', '-']);
    assert(t != seq!['-']);
    assert(t.subrange(2, t.len() as int) =~= name);
    lemma_find_unique(v.flags, i);
    assert(view_tag(v.flags[i].value) != Tag::Bool);
    let st1 = ArgsState { awaiting: Some(i), ..st0 };
    assert(toks[0] == t);
    assert(args_step(st0, sh, t) == Ok::<ArgsState, FaultView>(st1));
    // token 1: the first value resets the array, then appends
    let e1 = view_parse_and_set(view_clear(v.flags[i].value), a1)->Some_0;
    let f1 = FlagView { value: e1, ..v.flags[i] };
    let st2 = ArgsState {
        flags: st1.flags.update(i, f1),
        touched: st1.touched.update(i, true),
        awaiting: None,
        ..st1
    };
    assert(toks[1] == a1);
    assert(!st0.touched[i]);
    assert(write_text(st1.flags, st1.touched, i, a1) == Some::<(Seq<FlagView>, Seq<bool>)>(
        (st2.flags, st2.touched),
    ));
    assert(args_step(st1, sh, a1) == Ok::<ArgsState, FaultView>(st2));
    // token 2: "--name" again awaits
    assert(st2.flags[i].value == e1);
    assert(st2.flags.len() == v.flags.len());
    assert(forall|a: int, b: int|
        0 <= a < st2.flags.len() && 0 <= b < st2.flags.len() && a != b ==> (
        #[trigger] st2.flags[a]).name != (#[trigger] st2.flags[b]).name) by {
        assert(forall|a: int|
            0 <= a < st2.flags.len() ==> (#[trigger] st2.flags[a]).name == v.flags[a].name);
    }
    assert(st2.flags[i].name == name);
    lemma_find_unique(st2.flags, i);
    crate::value::lemma_parse_set_tag(view_clear(v.flags[i].value), a1);
    crate::value::lemma_clear_tag(v.flags[i].value);
    assert(view_tag(e1) == view_tag(v.flags[i].value));
    let st3 = ArgsState { awaiting: Some(i), ..st2 };
    assert(toks[2] == t);
    assert(args_step(st2, sh, t) == Ok::<ArgsState, FaultView>(st3));
    // token 3: the second value appends, the flag now being touched
    let e2 = view_parse_and_set(e1, a2)->Some_0;
    let f2 = FlagView { value: e2, ..f1 };
    assert(st3.touched[i]);
    let st4 = ArgsState {
        flags: st3.flags.update(i, f2),
        touched: st3.touched.update(i, true),
        awaiting: None,
        ..st3
    };
    assert(toks[3] == a2);
    assert(st3.flags[i] == f1);
    assert(write_text(st3.flags, st3.touched, i, a2) == Some::<(Seq<FlagView>, Seq<bool>)>(
        (st4.flags, st4.touched),
    ));
    assert(args_step(st3, sh, a2) == Ok::<ArgsState, FaultView>(st4));
    assert(args_run(st4, sh, toks, 4) == Ok::<ArgsState, FaultView>(st4));
    assert(args_run(st3, sh, toks, 3) == Ok::<ArgsState, FaultView>(st4));
    assert(args_run(st2, sh, toks, 2) == Ok::<ArgsState, FaultView>(st4));
    assert(args_run(st1, sh, toks, 1) == Ok::<ArgsState, FaultView>(st4));
    assert(args_run(st0, sh, toks, 0) == Ok::<ArgsState, FaultView>(st4));
    assert(st4.flags[i].value == e2);
}


/// Law: two config files that each set the same array flag produce the
/// concatenation of both files' values, in file order. The phase's touched
/// set persists across files: the first file resets the array, the second
/// appends to what the first wrote.
pub proof fn lemma_config_files_concat(v: FlagsView, i: int, t1: Seq<char>, t2: Seq<char>)
    requires
        flags_wf(v),
        0 <= i < v.flags.len(),
        is_array_tag(view_tag(v.flags[i].value)),
        json_doc_of_text(t1) matches Some(d1) && d1 matches JsonVal::Obj(es1) && es1@.len() == 1
            && es1@[0].0@ == v.flags[i].name && view_set_json(
            view_clear(v.flags[i].value),
            es1@[0].1,
        ) is Some,
        json_doc_of_text(t2) matches Some(d2) && d2 matches JsonVal::Obj(es2) && es2@.len() == 1
            && es2@[0].0@ == v.flags[i].name && view_set_json(
            view_set_json(view_clear(v.flags[i].value), json_doc_of_text(t1)->Some_0->Obj_0@[0].1)
                ->Some_0,
            es2@[0].1,
        ) is Some,
    ensures
        ({
            let jv1 = json_doc_of_text(t1)->Some_0->Obj_0@[0].1;
            let jv2 = json_doc_of_text(t2)->Some_0->Obj_0@[0].1;
            let r1 = view_set_json(view_clear(v.flags[i].value), jv1)->Some_0;
            let r2 = view_set_json(r1, jv2)->Some_0;
            spec_load_files(v, seq![Some(t1), Some(t2)]).flags[i].value == r2
        }),
{
    let texts = seq![Some(t1), Some(t2)];
    let jv1 = json_doc_of_text(t1)->Some_0->Obj_0@[0].1;
    let jv2 = json_doc_of_text(t2)->Some_0->Obj_0@[0].1;
    let name = v.flags[i].name;
    let fs0 = v.flags;
    let tc0 = Seq::new(v.flags.len(), |k: int| false);
    // file one: the single entry resets the untouched array and fills it
    lemma_find_unique(fs0, i);
    let r1 = view_set_json(view_clear(v.flags[i].value), jv1)->Some_0;
    let f1 = FlagView { value: r1, ..fs0[i] };
    let fs1 = fs0.update(i, f1);
    let tc1 = tc0.update(i, true);
    let es1 = json_doc_of_text(t1)->Some_0->Obj_0;
    assert(!tc0[i]);
    assert(entries_run(fs1, tc1, es1@, 1, 0) == (fs1, tc1, Seq::<WarningView>::empty()));
    assert(entries_run(fs0, tc0, es1@, 0, 0) == (fs1, tc1, Seq::<WarningView>::empty()));
    assert(file_step(fs0, tc0, texts[0], 0) == (fs1, tc1, Seq::<WarningView>::empty()));
    // file two: the same flag is already touched, so the entry appends
    assert(fs1.len() == fs0.len());
    assert(forall|a: int, b: int|
        0 <= a < fs1.len() && 0 <= b < fs1.len() && a != b ==> (#[trigger] fs1[a]).name != (
        #[trigger] fs1[b]).name) by {
        assert(forall|a: int| 0 <= a < fs1.len() ==> (#[trigger] fs1[a]).name == fs0[a].name);
    }
    assert(fs1[i].name == name);
    lemma_find_unique(fs1, i);
    crate::value::lemma_set_json_tag(view_clear(v.flags[i].value), jv1);
    crate::value::lemma_clear_tag(v.flags[i].value);
    assert(is_array_tag(view_tag(fs1[i].value)));
    assert(tc1[i]);
    let r2 = view_set_json(r1, jv2)->Some_0;
    let f2 = FlagView { value: r2, ..f1 };
    let fs2 = fs1.update(i, f2);
    let tc2 = tc1.update(i, true);
    let es2 = json_doc_of_text(t2)->Some_0->Obj_0;
    assert(entries_run(fs2, tc2, es2@, 1, 1) == (fs2, tc2, Seq::<WarningView>::empty()));
    assert(entries_run(fs1, tc1, es2@, 0, 1) == (fs2, tc2, Seq::<WarningView>::empty()));
    assert(file_step(fs1, tc1, texts[1], 1) == (fs2, tc2, Seq::<WarningView>::empty()));
    // the whole phase
    assert(files_run(fs2, tc2, texts, 2, Seq::<WarningView>::empty() + Seq::<WarningView>::empty()
        + Seq::<WarningView>::empty()) == (
        fs2,
        tc2,
        Seq::<WarningView>::empty() + Seq::<WarningView>::empty() + Seq::<WarningView>::empty(),
    ));
    assert(files_run(fs1, tc1, texts, 1, Seq::<WarningView>::empty()
        + Seq::<WarningView>::empty()) == (
        fs2,
        tc2,
        Seq::<WarningView>::empty() + Seq::<WarningView>::empty() + Seq::<WarningView>::empty(),
    ));
    assert(files_run(fs0, tc0, texts, 0, Seq::<WarningView>::empty()) == (
        fs2,
        tc2,
        Seq::<WarningView>::empty() + Seq::<WarningView>::empty() + Seq::<WarningView>::empty(),
    ));
    assert(fs2[i].value == r2);
}


/// Two flag-name characters with the same environment spelling are the same
/// character.
proof fn lemma_env_char_inj(x: char, y: char)
    requires
        is_name_char(x),
        is_name_char(y),
        env_char(x) == env_char(y),
    ensures
        x == y,
{
}

/// Two valid flag names with the same derived environment-variable name are
/// the same name.
pub proof fn lemma_env_name_injective(a: Seq<char>, b: Seq<char>)
    requires
        valid_name(a),
        valid_name(b),
        env_name(a) == env_name(b),
    ensures
        a == b,
{
    assert(env_name(a).len() == a.len());
    assert(env_name(b).len() == b.len());
    assert forall|k: int| 0 <= k < a.len() implies a[k] == b[k] by {
        assert(env_name(a)[k] == env_char(a[k]));
        assert(env_name(b)[k] == env_char(b[k]));
        lemma_env_char_inj(a[k], b[k]);
    }
    assert(a =~= b);
}

/// An environment phase that finds no variable for any flag from position
/// `j` on changes nothing more.
proof fn lemma_env_run_skip(
    fs: Seq<FlagView>,
    vars: Seq<(Seq<char>, Seq<char>)>,
    j: int,
    ws: Seq<WarningView>,
)
    requires
        0 <= j,
        forall|k: int|
            j <= k < fs.len() ==> env_lookup_from(
                vars,
                env_name((#[trigger] fs[k]).name),
                0,
            ) is None,
    ensures
        env_run(fs, vars, j, ws) == Ok::<(Seq<FlagView>, Seq<WarningView>), FaultView>((fs, ws)),
    decreases fs.len() - j,
{
    if 0 <= j < fs.len() {
        assert(env_step(fs, j, vars) == Ok::<(Seq<FlagView>, Seq<WarningView>), FaultView>(
            (fs, Seq::empty()),
        ));
        assert(ws + Seq::<WarningView>::empty() =~= ws);
        lemma_env_run_skip(fs, vars, j + 1, ws);
    }
}

/// An environment of exactly one variable, belonging to the scalar flag at
/// position `i`: the phase rewrites that flag alone.
proof fn lemma_env_run_one(
    fs: Seq<FlagView>,
    vars: Seq<(Seq<char>, Seq<char>)>,
    i: int,
    ev: Seq<char>,
    j: int,
    ws: Seq<WarningView>,
)
    requires
        0 <= j <= i < fs.len(),
        forall|k: int| 0 <= k < fs.len() ==> valid_name((#[trigger] fs[k]).name),
        forall|a: int, b: int|
            0 <= a < fs.len() && 0 <= b < fs.len() && a != b ==> (#[trigger] fs[a]).name != (
            #[trigger] fs[b]).name,
        vars == seq![(env_name(fs[i].name), ev)],
        !is_array_tag(view_tag(fs[i].value)),
        view_parse_and_set(fs[i].value, ev) is Some,
    ensures
        env_run(fs, vars, j, ws) == Ok::<(Seq<FlagView>, Seq<WarningView>), FaultView>(
            (
                fs.update(
                    i,
                    FlagView { value: view_parse_and_set(fs[i].value, ev)->Some_0, ..fs[i] },
                ),
                ws,
            ),
        ),
    decreases fs.len() - j,
{
    assert(vars[0] == (env_name(fs[i].name), ev));
    if j < i {
        // this flag's variable is absent: its env name is not the one set
        assert(env_name(fs[j].name) != env_name(fs[i].name)) by {
            if env_name(fs[j].name) == env_name(fs[i].name) {
                lemma_env_name_injective(fs[j].name, fs[i].name);
            }
        }
        assert(env_lookup_from(vars, env_name(fs[j].name), 1) is None);
        assert(env_lookup_from(vars, env_name(fs[j].name), 0) is None);
        assert(env_step(fs, j, vars) == Ok::<(Seq<FlagView>, Seq<WarningView>), FaultView>(
            (fs, Seq::empty()),
        ));
        assert(ws + Seq::<WarningView>::empty() =~= ws);
        lemma_env_run_one(fs, vars, i, ev, j + 1, ws);
    } else {
        // j == i: the variable is present and the scalar is rewritten
        assert(env_lookup_from(vars, env_name(fs[i].name), 0) == Some(ev));
        let v2 = view_parse_and_set(fs[i].value, ev)->Some_0;
        let fs2 = fs.update(i, FlagView { value: v2, ..fs[i] });
        assert(env_step(fs, i, vars) == Ok::<(Seq<FlagView>, Seq<WarningView>), FaultView>(
            (fs2, Seq::empty()),
        ));
        assert(ws + Seq::<WarningView>::empty() =~= ws);
        assert forall|k: int|
            i + 1 <= k < fs2.len() implies env_lookup_from(
            vars,
            env_name((#[trigger] fs2[k]).name),
            0,
        ) is None by {
            assert(fs2[k].name == fs[k].name);
            if env_name(fs[k].name) == env_name(fs[i].name) {
                lemma_env_name_injective(fs[k].name, fs[i].name);
            }
            assert(env_name(fs[k].name) != env_name(fs[i].name));
            assert(env_lookup_from(vars, env_name(fs[k].name), 1) is None);
        }
        lemma_env_run_skip(fs2, vars, i + 1, ws);
    }
}

/// Law: for a scalar flag set by a config file, then by its environment
/// variable, then by a command-line argument, the final value is the one
/// the command line supplied — the last phase wins.
pub proof fn lemma_scalar_last_phase_wins(
    v: FlagsView,
    i: int,
    t: Seq<char>,
    ev: Seq<char>,
    a: Seq<char>,
)
    requires
        flags_wf(v),
        0 <= i < v.flags.len(),
        !is_array_tag(view_tag(v.flags[i].value)),
        view_tag(v.flags[i].value) != Tag::Bool,
        json_doc_of_text(t) matches Some(d) && d matches JsonVal::Obj(es) && es@.len() == 1
            && es@[0].0@ == v.flags[i].name && view_set_json(v.flags[i].value, es@[0].1) is Some,
        view_parse_and_set(v.flags[i].value, ev) is Some,
        view_parse_and_set(v.flags[i].value, a) is Some,
    ensures
        ({
            let toks = seq![seq!['-', '-'] + v.flags[i].name, a];
            let vars = seq![(env_name(v.flags[i].name), ev)];
            let r = spec_load(v, seq![Some(t)], vars, toks);
            r.1 is None && r.0.flags[i].value == view_parse_and_set(v.flags[i].value, a)->Some_0
        }),
{
    let name = v.flags[i].name;
    let texts = seq![Some(t)];
    let vars = seq![(env_name(name), ev)];
    let toks = seq![seq!['-', '-'] + name, a];
    let jv = json_doc_of_text(t)->Some_0->Obj_0@[0].1;
    let fs0 = v.flags;
    let tc0 = Seq::new(v.flags.len(), |k: int| false);
    // phase one: the file writes the scalar
    lemma_find_unique(fs0, i);
    let r1 = view_set_json(fs0[i].value, jv)->Some_0;
    let f1 = FlagView { value: r1, ..fs0[i] };
    let fs1 = fs0.update(i, f1);
    let tc1 = tc0.update(i, true);
    let es = json_doc_of_text(t)->Some_0->Obj_0;
    assert(entries_run(fs1, tc1, es@, 1, 0) == (fs1, tc1, Seq::<WarningView>::empty()));
    assert(entries_run(fs0, tc0, es@, 0, 0) == (fs1, tc1, Seq::<WarningView>::empty()));
    assert(file_step(fs0, tc0, texts[0], 0) == (fs1, tc1, Seq::<WarningView>::empty()));
    assert(files_run(fs1, tc1, texts, 1, Seq::<WarningView>::empty()
        + Seq::<WarningView>::empty()) == (
        fs1,
        tc1,
        Seq::<WarningView>::empty() + Seq::<WarningView>::empty(),
    ));
    assert(files_run(fs0, tc0, texts, 0, Seq::<WarningView>::empty()) == (
        fs1,
        tc1,
        Seq::<WarningView>::empty() + Seq::<WarningView>::empty(),
    ));
    let v1 = spec_load_files(v, texts);
    assert(v1.flags == fs1);
    // phase two: the one environment variable rewrites the same scalar
    crate::value::lemma_set_json_tag(fs0[i].value, jv);
    assert(fs1.len() == fs0.len());
    assert(forall|k: int| 0 <= k < fs1.len() ==> (#[trigger] fs1[k]).name == fs0[k].name);
    assert forall|k: int| 0 <= k < fs1.len() implies valid_name((#[trigger] fs1[k]).name) by {
        assert(flag_wf(fs0[k]));
    }
    assert(forall|a1: int, b1: int|
        0 <= a1 < fs1.len() && 0 <= b1 < fs1.len() && a1 != b1 ==> (#[trigger] fs1[a1]).name != (
        #[trigger] fs1[b1]).name);
    lemma_parse_indep(fs0[i].value, fs1[i].value, ev);
    assert(fs1[i].name == name);
    lemma_env_run_one(fs1, vars, i, ev, 0, Seq::empty());
    let r2 = view_parse_and_set(fs1[i].value, ev)->Some_0;
    let f2 = FlagView { value: r2, ..fs1[i] };
    let fs2 = fs1.update(i, f2);
    let v2 = spec_parse_env(v1, vars)->Ok_0;
    assert(spec_parse_env(v1, vars) is Ok);
    assert(v2.flags == fs2);
    assert(v2.shorthands == v.shorthands);
    assert(v2.positionals == v.positionals);
    // phase three: the argument rewrites it once more
    crate::value::lemma_parse_set_tag(fs1[i].value, ev);
    assert(view_tag(fs2[i].value) == view_tag(fs0[i].value));
    assert(fs2.len() == fs0.len());
    assert(forall|k: int| 0 <= k < fs2.len() ==> (#[trigger] fs2[k]).name == fs0[k].name);
    assert(forall|a1: int, b1: int|
        0 <= a1 < fs2.len() && 0 <= b1 < fs2.len() && a1 != b1 ==> (#[trigger] fs2[a1]).name != (
        #[trigger] fs2[b1]).name);
    let st0 = init_args_state(v2);
    let tk = seq!['-', '-'] + name;
    assert(flag_wf(fs0[i]));
    assert(valid_name(name));
    assert(name.len() >= 1);
    assert(is_name_char(name[0]));
    assert(tk.len() == name.len() + 2 && tk[0] == '-' && tk[1] == '-');
    assert(tk != seq!['-', '-']);
    assert(tk != seq!['-']);
    assert(tk.subrange(2, tk.len() as int) =~= name);
    assert(fs2[i].name == name);
    lemma_find_unique(fs2, i);
    let st1 = ArgsState { awaiting: Some(i), ..st0 };
    assert(toks[0] == tk);
    assert(args_step(st0, v2.shorthands, tk) == Ok::<ArgsState, FaultView>(st1));
    lemma_parse_indep(fs0[i].value, fs2[i].value, a);
    let r3 = view_parse_and_set(fs2[i].value, a)->Some_0;
    let f3 = FlagView { value: r3, ..fs2[i] };
    let st2 = ArgsState {
        flags: st1.flags.update(i, f3),
        touched: st1.touched.update(i, true),
        awaiting: None,
        ..st1
    };
    assert(toks[1] == a);
    assert(write_text(st1.flags, st1.touched, i, a) == Some::<(Seq<FlagView>, Seq<bool>)>(
        (st2.flags, st2.touched),
    ));
    assert(args_step(st1, v2.shorthands, a) == Ok::<ArgsState, FaultView>(st2));
    assert(args_run(st2, v2.shorthands, toks, 2) == Ok::<ArgsState, FaultView>(st2));
    assert(args_run(st1, v2.shorthands, toks, 1) == Ok::<ArgsState, FaultView>(st2));
    assert(args_run(st0, v2.shorthands, toks, 0) == Ok::<ArgsState, FaultView>(st2));
    assert(spec_parse_args(v2, toks) is Ok);
    let v3 = spec_parse_args(v2, toks)->Ok_0;
    assert(v3.flags[i].value == r3);
    assert(r3 == view_parse_and_set(v.flags[i].value, a)->Some_0);
}


/// Law: for a boolean flag set by a config file, then by its environment
/// variable, then named bare on the command line, the final value is the
/// command line's: true.
pub proof fn lemma_bool_last_phase_wins(v: FlagsView, i: int, t: Seq<char>, ev: Seq<char>)
    requires
        flags_wf(v),
        0 <= i < v.flags.len(),
        view_tag(v.flags[i].value) == Tag::Bool,
        json_doc_of_text(t) matches Some(d) && d matches JsonVal::Obj(es) && es@.len() == 1
            && es@[0].0@ == v.flags[i].name && view_set_json(v.flags[i].value, es@[0].1) is Some,
        view_parse_and_set(v.flags[i].value, ev) is Some,
    ensures
        ({
            let toks = seq![seq!['-', '-'] + v.flags[i].name];
            let vars = seq![(env_name(v.flags[i].name), ev)];
            let r = spec_load(v, seq![Some(t)], vars, toks);
            r.1 is None && r.0.flags[i].value == ValueView::Bool(true)
        }),
{
    let name = v.flags[i].name;
    let texts = seq![Some(t)];
    let vars = seq![(env_name(name), ev)];
    let toks = seq![seq!['-', '-'] + name];
    let jv = json_doc_of_text(t)->Some_0->Obj_0@[0].1;
    let fs0 = v.flags;
    let tc0 = Seq::new(v.flags.len(), |k: int| false);
    // phase one: the file writes the boolean
    lemma_find_unique(fs0, i);
    let r1 = view_set_json(fs0[i].value, jv)->Some_0;
    let f1 = FlagView { value: r1, ..fs0[i] };
    let fs1 = fs0.update(i, f1);
    let tc1 = tc0.update(i, true);
    let es = json_doc_of_text(t)->Some_0->Obj_0;
    assert(entries_run(fs1, tc1, es@, 1, 0) == (fs1, tc1, Seq::<WarningView>::empty()));
    assert(entries_run(fs0, tc0, es@, 0, 0) == (fs1, tc1, Seq::<WarningView>::empty()));
    assert(file_step(fs0, tc0, texts[0], 0) == (fs1, tc1, Seq::<WarningView>::empty()));
    assert(files_run(fs1, tc1, texts, 1, Seq::<WarningView>::empty()
        + Seq::<WarningView>::empty()) == (
        fs1,
        tc1,
        Seq::<WarningView>::empty() + Seq::<WarningView>::empty(),
    ));
    assert(files_run(fs0, tc0, texts, 0, Seq::<WarningView>::empty()) == (
        fs1,
        tc1,
        Seq::<WarningView>::empty() + Seq::<WarningView>::empty(),
    ));
    let v1 = spec_load_files(v, texts);
    assert(v1.flags == fs1);
    // phase two: the one environment variable rewrites it
    crate::value::lemma_set_json_tag(fs0[i].value, jv);
    assert(fs1.len() == fs0.len());
    assert(forall|k: int| 0 <= k < fs1.len() ==> (#[trigger] fs1[k]).name == fs0[k].name);
    assert forall|k: int| 0 <= k < fs1.len() implies valid_name((#[trigger] fs1[k]).name) by {
        assert(flag_wf(fs0[k]));
    }
    assert(forall|a1: int, b1: int|
        0 <= a1 < fs1.len() && 0 <= b1 < fs1.len() && a1 != b1 ==> (#[trigger] fs1[a1]).name != (
        #[trigger] fs1[b1]).name);
    lemma_parse_indep(fs0[i].value, fs1[i].value, ev);
    assert(fs1[i].name == name);
    lemma_env_run_one(fs1, vars, i, ev, 0, Seq::empty());
    let r2 = view_parse_and_set(fs1[i].value, ev)->Some_0;
    let f2 = FlagView { value: r2, ..fs1[i] };
    let fs2 = fs1.update(i, f2);
    let v2 = spec_parse_env(v1, vars)->Ok_0;
    assert(spec_parse_env(v1, vars) is Ok);
    assert(v2.flags == fs2);
    // phase three: the bare long flag sets it true
    crate::value::lemma_parse_set_tag(fs1[i].value, ev);
    assert(view_tag(fs2[i].value) == Tag::Bool);
    assert(fs2.len() == fs0.len());
    assert(forall|k: int| 0 <= k < fs2.len() ==> (#[trigger] fs2[k]).name == fs0[k].name);
    assert(forall|a1: int, b1: int|
        0 <= a1 < fs2.len() && 0 <= b1 < fs2.len() && a1 != b1 ==> (#[trigger] fs2[a1]).name != (
        #[trigger] fs2[b1]).name);
    let st0 = init_args_state(v2);
    let tk = seq!['-', '-'] + name;
    assert(flag_wf(fs0[i]));
    assert(valid_name(name));
    assert(name.len() >= 1);
    assert(is_name_char(name[0]));
    assert(tk.len() == name.len() + 2 && tk[0] == '-' && tk[1] == '-');
    assert(tk != seq!['-', '-']);
    assert(tk != seq!['-']);
    assert(tk.subrange(2, tk.len() as int) =~= name);
    assert(fs2[i].name == name);
    lemma_find_unique(fs2, i);
    let f3 = FlagView { value: ValueView::Bool(true), ..fs2[i] };
    let st1 = ArgsState { flags: st0.flags.update(i, f3), ..st0 };
    assert(toks[0] == tk);
    assert(args_step(st0, v2.shorthands, tk) == Ok::<ArgsState, FaultView>(st1));
    assert(args_run(st1, v2.shorthands, toks, 1) == Ok::<ArgsState, FaultView>(st1));
    assert(args_run(st0, v2.shorthands, toks, 0) == Ok::<ArgsState, FaultView>(st1));
    assert(spec_parse_args(v2, toks) is Ok);
    assert(spec_parse_args(v2, toks)->Ok_0.flags[i].value == ValueView::Bool(true));
}

} // verus!

//! The registry: the full set of flags with their current values, the
//! shorthand index, the registered config-file paths, and what a load
//! leaves behind — positional arguments and warnings.

use vstd::prelude::*;
use crate::flag::{Flag, FlagView, flag_wf};
use crate::value::{FlagValue, ValueView};
use crate::fault::{Warning, WarningView};
use crate::text::str_eq;

verus! {

/// The spec-level shape of a registry.
pub struct FlagsView {
    pub flags: Seq<FlagView>,
    pub shorthands: Seq<(char, Seq<char>)>,
    pub config_files: Seq<Seq<char>>,
    pub positionals: Seq<Seq<char>>,
    pub warnings: Seq<WarningView>,
}

/// The first flag of this name at or after position `i`.
pub open spec fn find_from(fs: Seq<FlagView>, name: Seq<char>, i: int) -> Option<int>
    decreases fs.len() - i,
{
    if i < 0 || i >= fs.len() {
        None
    } else if fs[i].name == name {
        Some(i)
    } else {
        find_from(fs, name, i + 1)
    }
}

/// The first flag of this name, if any.
pub open spec fn spec_find(fs: Seq<FlagView>, name: Seq<char>) -> Option<int> {
    find_from(fs, name, 0)
}

/// The first shorthand entry for this letter at or after position `i`.
pub open spec fn sh_find_from(sh: Seq<(char, Seq<char>)>, c: char, i: int) -> Option<int>
    decreases sh.len() - i,
{
    if i < 0 || i >= sh.len() {
        None
    } else if sh[i].0 == c {
        Some(i)
    } else {
        sh_find_from(sh, c, i + 1)
    }
}

/// The first shorthand entry for this letter, if any.
pub open spec fn spec_sh_find(sh: Seq<(char, Seq<char>)>, c: char) -> Option<int> {
    sh_find_from(sh, c, 0)
}

/// The spec-level shapes of a vector of flags.
pub open spec fn views_of(v: Seq<Flag>) -> Seq<FlagView> {
    v.map_values(|f: Flag| f@)
}

/// The position of the flag with this name in the vector, if any.
pub fn find_in(flags: &Vec<Flag>, name: &str) -> (r: Option<usize>)
    ensures
        match r {
            Some(i) => spec_find(views_of(flags@), name@) == Some(i as int),
            None => spec_find(views_of(flags@), name@) is None,
        },
{
    let n = flags.len();
    let mut i: usize = 0;
    while i < n
        invariant
            0 <= i <= n,
            n == flags@.len(),
            find_from(views_of(flags@), name@, 0) == find_from(views_of(flags@), name@, i as int),
        decreases n - i,
    {
        proof {
            assert(views_of(flags@)[i as int] == flags@[i as int]@);
        }
        if str_eq(flags[i].name.as_str(), name) {
            return Some(i);
        }
        i = i + 1;
    }
    None
}

pub proof fn lemma_find_from_none(fs: Seq<FlagView>, name: Seq<char>, i: int)
    requires
        0 <= i,
        find_from(fs, name, i) is None,
    ensures
        forall|j: int| i <= j < fs.len() ==> (#[trigger] fs[j]).name != name,
    decreases fs.len() - i,
{
    if 0 <= i < fs.len() {
        lemma_find_from_none(fs, name, i + 1);
    }
}

pub proof fn lemma_find_from_some(fs: Seq<FlagView>, name: Seq<char>, i: int)
    requires
        find_from(fs, name, i) is Some,
    ensures
        i <= find_from(fs, name, i)->Some_0 < fs.len(),
        fs[find_from(fs, name, i)->Some_0].name == name,
    decreases fs.len() - i,
{
    if 0 <= i < fs.len() && fs[i].name != name {
        lemma_find_from_some(fs, name, i + 1);
    }
}

pub proof fn lemma_find_from_push(fs: Seq<FlagView>, f: FlagView, name: Seq<char>, i: int)
    requires
        0 <= i <= fs.len(),
    ensures
        find_from(fs.push(f), name, i) == match find_from(fs, name, i) {
            Some(k) => Some(k),
            None => if f.name == name {
                Some(fs.len() as int)
            } else {
                None
            },
        },
    decreases fs.len() - i,
{
    assert(fs.push(f).len() == fs.len() + 1);
    assert(fs.push(f)[fs.len() as int] == f);
    if i < fs.len() {
        assert(fs.push(f)[i] == fs[i]);
        lemma_find_from_push(fs, f, name, i + 1);
    }
}

pub proof fn lemma_sh_find_from_none(sh: Seq<(char, Seq<char>)>, c: char, i: int)
    requires
        0 <= i,
        sh_find_from(sh, c, i) is None,
    ensures
        forall|j: int| i <= j < sh.len() ==> (#[trigger] sh[j]).0 != c,
    decreases sh.len() - i,
{
    if 0 <= i < sh.len() {
        lemma_sh_find_from_none(sh, c, i + 1);
        assert forall|j: int| i <= j < sh.len() implies (#[trigger] sh[j]).0 != c by {
            if j == i {
                assert(sh[i].0 != c);
            }
        }
    }
}

pub proof fn lemma_sh_find_from_some(sh: Seq<(char, Seq<char>)>, c: char, i: int)
    requires
        sh_find_from(sh, c, i) is Some,
    ensures
        i <= sh_find_from(sh, c, i)->Some_0 < sh.len(),
        sh[sh_find_from(sh, c, i)->Some_0].0 == c,
    decreases sh.len() - i,
{
    if 0 <= i < sh.len() && sh[i].0 != c {
        lemma_sh_find_from_some(sh, c, i + 1);
    }
}

/// A well-formed registry: every flag well formed, names unique, shorthand
/// letters unique, and every shorthand entry resolving to a registered flag.
pub open spec fn flags_wf(v: FlagsView) -> bool {
    &&& forall|i: int| 0 <= i < v.flags.len() ==> flag_wf(#[trigger] v.flags[i])
    &&& forall|i: int, j: int|
        0 <= i < v.flags.len() && 0 <= j < v.flags.len() && i != j ==> (#[trigger] v.flags[i]).name
            != (#[trigger] v.flags[j]).name
    &&& forall|k: int|
        0 <= k < v.shorthands.len() ==> spec_find(v.flags, (#[trigger] v.shorthands[k]).1) is Some
    &&& forall|k: int, l: int|
        0 <= k < v.shorthands.len() && 0 <= l < v.shorthands.len() && k != l ==> (
        #[trigger] v.shorthands[k]).0 != (#[trigger] v.shorthands[l]).0
}

/// The registry of flags. The fields are open to inspection; the
/// registering and loading operations keep the registry well formed.
pub struct Flags {
    pub flags: Vec<Flag>,
    pub shorthands: Vec<(char, String)>,
    pub config_files: Vec<String>,
    pub positionals: Vec<String>,
    pub warnings: Vec<Warning>,
}

impl View for Flags {
    type V = FlagsView;

    open spec fn view(&self) -> FlagsView {
        FlagsView {
            flags: views_of(self.flags@),
            shorthands: self.shorthands@.map_values(|p: (char, String)| (p.0, p.1@)),
            config_files: self.config_files.deep_view(),
            positionals: self.positionals.deep_view(),
            warnings: self.warnings@.map_values(|w: Warning| w@),
        }
    }
}

impl Flags {
    /// This registry is well formed.
    pub open spec fn wf(self) -> bool {
        flags_wf(self@)
    }

    /// An empty registry.
    pub fn new() -> (r: Flags)
        ensures
            r@ == (FlagsView {
                flags: Seq::empty(),
                shorthands: Seq::empty(),
                config_files: Seq::empty(),
                positionals: Seq::empty(),
                warnings: Seq::empty(),
            }),
            r.wf(),
    {
        let r = Flags {
            flags: Vec::new(),
            shorthands: Vec::new(),
            config_files: Vec::new(),
            positionals: Vec::new(),
            warnings: Vec::new(),
        };
        proof {
            assert(r@.flags =~= Seq::<FlagView>::empty());
            assert(r@.shorthands =~= Seq::<(char, Seq<char>)>::empty());
            assert(r@.config_files =~= Seq::<Seq<char>>::empty());
            assert(r@.positionals =~= Seq::<Seq<char>>::empty());
            assert(r@.warnings =~= Seq::<WarningView>::empty());
        }
        r
    }

    /// The position of the flag with this name, if one is registered.
    pub fn find(&self, name: &str) -> (r: Option<usize>)
        ensures
            match r {
                Some(i) => spec_find(self@.flags, name@) == Some(i as int),
                None => spec_find(self@.flags, name@) is None,
            },
    {
        find_in(&self.flags, name)
    }

    /// The position of the shorthand entry for this letter, if one is
    /// registered.
    pub fn find_shorthand(&self, c: char) -> (r: Option<usize>)
        ensures
            match r {
                Some(k) => spec_sh_find(self@.shorthands, c) == Some(k as int),
                None => spec_sh_find(self@.shorthands, c) is None,
            },
    {
        let n = self.shorthands.len();
        let mut k: usize = 0;
        while k < n
            invariant
                0 <= k <= n,
                n == self.shorthands@.len(),
                self@.shorthands.len() == n,
                sh_find_from(self@.shorthands, c, 0) == sh_find_from(self@.shorthands, c, k as int),
            decreases n - k,
        {
            proof {
                assert(self@.shorthands[k as int].0 == self.shorthands@[k as int].0);
            }
            if self.shorthands[k].0 == c {
                return Some(k);
            }
            k = k + 1;
        }
        None
    }

    /// Registers one flag. Its name and shorthand must both be new: an
    /// unchecked caller uses `try_add`.
    pub fn add(&mut self, flag: Flag)
        requires
            old(self).wf(),
            flag_wf(flag@),
            spec_find(old(self)@.flags, flag@.name) is None,
            match flag@.shorthand {
                Some(c) => spec_sh_find(old(self)@.shorthands, c) is None,
                None => true,
            },
        ensures
            final(self).wf(),
            final(self)@ == (FlagsView {
                flags: old(self)@.flags.push(flag@),
                shorthands: match flag@.shorthand {
                    Some(c) => old(self)@.shorthands.push((c, flag@.name)),
                    None => old(self)@.shorthands,
                },
                ..old(self)@
            }),
    {
        let ghost pre = self@;
        let ghost fv = flag@;
        match flag.shorthand {
            Some(c) => {
                self.shorthands.push((c, flag.name.clone()));
            },
            None => {},
        }
        self.flags.push(flag);
        proof {
            assert(self@.flags =~= pre.flags.push(fv));
            match fv.shorthand {
                Some(c) => {
                    assert(self@.shorthands =~= pre.shorthands.push((c, fv.name)));
                },
                None => {
                    assert(self@.shorthands =~= pre.shorthands);
                },
            }
            assert(self@.config_files =~= pre.config_files);
            assert(self@.positionals =~= pre.positionals);
            assert(self@.warnings =~= pre.warnings);
            // well-formedness is preserved
            let v = self@;
            assert forall|i: int| 0 <= i < v.flags.len() implies flag_wf(#[trigger] v.flags[i]) by {
                if i < pre.flags.len() {
                    assert(v.flags[i] == pre.flags[i]);
                }
            }
            lemma_find_from_none(pre.flags, fv.name, 0);
            assert forall|i: int, j: int|
                0 <= i < v.flags.len() && 0 <= j < v.flags.len() && i != j implies (
            #[trigger] v.flags[i]).name != (#[trigger] v.flags[j]).name by {
                if i < pre.flags.len() && j < pre.flags.len() {
                    assert(pre.flags[i].name != pre.flags[j].name);
                }
            }
            assert forall|k: int|
                0 <= k < v.shorthands.len() implies spec_find(
                v.flags,
                (#[trigger] v.shorthands[k]).1,
            ) is Some by {
                if k < pre.shorthands.len() {
                    assert(spec_find(pre.flags, pre.shorthands[k].1) is Some);
                    lemma_find_from_push(pre.flags, fv, pre.shorthands[k].1, 0);
                    assert(v.shorthands[k] == pre.shorthands[k]);
                } else {
                    lemma_find_from_push(pre.flags, fv, fv.name, 0);
                }
            }
            match fv.shorthand {
                Some(c) => {
                    lemma_sh_find_from_none(pre.shorthands, c, 0);
                },
                None => {},
            }
            assert forall|k: int, l: int|
                0 <= k < v.shorthands.len() && 0 <= l < v.shorthands.len() && k != l implies (
            #[trigger] v.shorthands[k]).0 != (#[trigger] v.shorthands[l]).0 by {
                if k < pre.shorthands.len() && l < pre.shorthands.len() {
                    assert(pre.shorthands[k].0 != pre.shorthands[l].0);
                }
            }
        }
    }

    /// Registers one flag, or refuses it: true exactly where the flag was
    /// well formed and neither its name nor its shorthand was taken.
    pub fn try_add(&mut self, flag: Flag) -> (ok: bool)
        requires
            old(self).wf(),
            flag_wf(flag@),
        ensures
            final(self).wf(),
            ok <==> (spec_find(old(self)@.flags, flag@.name) is None && match flag@.shorthand {
                Some(c) => spec_sh_find(old(self)@.shorthands, c) is None,
                None => true,
            }),
            ok ==> final(self)@ == (FlagsView {
                flags: old(self)@.flags.push(flag@),
                shorthands: match flag@.shorthand {
                    Some(c) => old(self)@.shorthands.push((c, flag@.name)),
                    None => old(self)@.shorthands,
                },
                ..old(self)@
            }),
            !ok ==> *final(self) == *old(self),
    {
        if self.find(flag.name.as_str()).is_some() {
            return false;
        }
        match flag.shorthand {
            Some(c) => {
                if self.find_shorthand(c).is_some() {
                    return false;
                }
            },
            None => {},
        }
        self.add(flag);
        true
    }

    /// Registers one config-file path; files are read in registration
    /// order, later files overriding earlier ones.
    pub fn add_config_file(&mut self, path: &str)
        requires
            old(self).wf(),
        ensures
            final(self).wf(),
            final(self)@ == (FlagsView {
                config_files: old(self)@.config_files.push(path@),
                ..old(self)@
            }),
    {
        let ghost pre = self@;
        self.config_files.push(path.to_owned());
        proof {
            assert(self@.config_files =~= pre.config_files.push(path@));
            assert(self@.flags =~= pre.flags);
            assert(self@.shorthands =~= pre.shorthands);
            assert(self@.positionals =~= pre.positionals);
            assert(self@.warnings =~= pre.warnings);
        }
    }

    /// The flag with this name, which must be registered.
    pub fn get(&self, name: &str) -> (r: &Flag)
        requires
            spec_find(self@.flags, name@) is Some,
        ensures
            r@ == self@.flags[spec_find(self@.flags, name@)->Some_0],
    {
        proof {
            lemma_find_from_some(self@.flags, name@, 0);
        }
        let i = self.find(name).unwrap();
        proof {
            assert(self@.flags[i as int] == self.flags@[i as int]@);
        }
        &self.flags[i]
    }

    /// The positional arguments captured by the last load, in the order
    /// they were encountered.
    pub fn positionals(&self) -> (r: &Vec<String>)
        ensures
            r.deep_view() == self@.positionals,
    {
        &self.positionals
    }

    /// The warnings collected by the last load, in the order they arose.
    pub fn warnings(&self) -> (r: &Vec<Warning>)
        ensures
            r@.map_values(|w: Warning| w@) == self@.warnings,
    {
        &self.warnings
    }

    /// The registered config-file paths, in registration order.
    pub fn config_files(&self) -> (r: &Vec<String>)
        ensures
            r.deep_view() == self@.config_files,
    {
        &self.config_files
    }

    /// The boolean value of this flag, which must be registered and hold a
    /// boolean.
    pub fn get_bool(&self, name: &str) -> (r: bool)
        requires
            spec_find(self@.flags, name@) is Some,
            self@.flags[spec_find(self@.flags, name@)->Some_0].value is Bool,
        ensures
            self@.flags[spec_find(self@.flags, name@)->Some_0].value == ValueView::Bool(r),
    {
        match &self.get(name).value {
            FlagValue::Bool(b) => *b,
            _ => vstd::pervasive::unreached(),
        }
    }

    /// The text value of this flag, which must be registered and hold a
    /// text.
    pub fn get_string(&self, name: &str) -> (r: String)
        requires
            spec_find(self@.flags, name@) is Some,
            self@.flags[spec_find(self@.flags, name@)->Some_0].value is Str,
        ensures
            self@.flags[spec_find(self@.flags, name@)->Some_0].value == ValueView::Str(r@),
    {
        match &self.get(name).value {
            FlagValue::String(s) => s.clone(),
            _ => vstd::pervasive::unreached(),
        }
    }

    /// The 64-bit integer value of this flag, which must be registered and
    /// hold one.
    pub fn get_i64(&self, name: &str) -> (r: i64)
        requires
            spec_find(self@.flags, name@) is Some,
            self@.flags[spec_find(self@.flags, name@)->Some_0].value is Int64,
        ensures
            self@.flags[spec_find(self@.flags, name@)->Some_0].value == ValueView::Int64(r),
    {
        match &self.get(name).value {
            FlagValue::Int64(n) => *n,
            _ => vstd::pervasive::unreached(),
        }
    }

    /// The wide integer value of this flag, which must be registered and
    /// hold one.
    pub fn get_i128(&self, name: &str) -> (r: i128)
        requires
            spec_find(self@.flags, name@) is Some,
            self@.flags[spec_find(self@.flags, name@)->Some_0].value is Int128,
        ensures
            self@.flags[spec_find(self@.flags, name@)->Some_0].value == ValueView::Int128(r),
    {
        match &self.get(name).value {
            FlagValue::Int128(n) => *n,
            _ => vstd::pervasive::unreached(),
        }
    }

    /// The double-precision value of this flag, which must be registered
    /// and hold one; it is handed out as the JSON number that carries it.
    pub fn get_f64(&self, name: &str) -> (r: serde_json::Number)
        requires
            spec_find(self@.flags, name@) is Some,
            self@.flags[spec_find(self@.flags, name@)->Some_0].value is Float64,
        ensures
            self@.flags[spec_find(self@.flags, name@)->Some_0].value == ValueView::Float64(r),
    {
        match &self.get(name).value {
            FlagValue::Float64(x) => x.clone(),
            _ => vstd::pervasive::unreached(),
        }
    }

    /// The text-array value of this flag, which must be registered and hold
    /// one.
    pub fn get_string_array(&self, name: &str) -> (r: Vec<String>)
        requires
            spec_find(self@.flags, name@) is Some,
            self@.flags[spec_find(self@.flags, name@)->Some_0].value is StrArr,
        ensures
            self@.flags[spec_find(self@.flags, name@)->Some_0].value == ValueView::StrArr(
                r.deep_view(),
            ),
    {
        match &self.get(name).value {
            FlagValue::StringArray(a) => {
                let r = a.clone();
                proof {
                    assert(r.deep_view() =~= a.deep_view());
                }
                r
            },
            _ => vstd::pervasive::unreached(),
        }
    }

    /// The 64-bit-integer-array value of this flag, which must be
    /// registered and hold one.
    pub fn get_i64_array(&self, name: &str) -> (r: Vec<i64>)
        requires
            spec_find(self@.flags, name@) is Some,
            self@.flags[spec_find(self@.flags, name@)->Some_0].value is I64Arr,
        ensures
            self@.flags[spec_find(self@.flags, name@)->Some_0].value == ValueView::I64Arr(r@),
    {
        match &self.get(name).value {
            FlagValue::Int64Array(a) => {
                let r = a.clone();
                proof {
                    assert(r@ =~= a@);
                }
                r
            },
            _ => vstd::pervasive::unreached(),
        }
    }

    /// The wide-integer-array value of this flag, which must be registered
    /// and hold one.
    pub fn get_i128_array(&self, name: &str) -> (r: Vec<i128>)
        requires
            spec_find(self@.flags, name@) is Some,
            self@.flags[spec_find(self@.flags, name@)->Some_0].value is I128Arr,
        ensures
            self@.flags[spec_find(self@.flags, name@)->Some_0].value == ValueView::I128Arr(r@),
    {
        match &self.get(name).value {
            FlagValue::Int128Array(a) => {
                let r = a.clone();
                proof {
                    assert(r@ =~= a@);
                }
                r
            },
            _ => vstd::pervasive::unreached(),
        }
    }

    /// The double-precision-array value of this flag, which must be
    /// registered and hold one.
    pub fn get_f64_array(&self, name: &str) -> (r: Vec<serde_json::Number>)
        requires
            spec_find(self@.flags, name@) is Some,
            self@.flags[spec_find(self@.flags, name@)->Some_0].value is FloatArr,
        ensures
            self@.flags[spec_find(self@.flags, name@)->Some_0].value == ValueView::FloatArr(r@),
    {
        match &self.get(name).value {
            FlagValue::Float64Array(a) => {
                let r = a.clone();
                proof {
                    assert(r@ =~= a@);
                }
                r
            },
            _ => vstd::pervasive::unreached(),
        }
    }
}

} // verus!

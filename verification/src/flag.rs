//! One named setting: canonical name, optional shorthand letter, default
//! and current value, and metadata for the usage text.

use vstd::prelude::*;
use crate::text::{is_name_char, is_alnum, env_char, exec_is_name_char, exec_is_alnum,
    exec_env_char};
use crate::value::{FlagValue, ValueView, view_tag, is_array_tag};

verus! {

/// A valid flag name: nonempty, lowercase ASCII letters, digits and dashes
/// only.
pub open spec fn valid_name(s: Seq<char>) -> bool {
    s.len() > 0 && forall|i: int| 0 <= i < s.len() ==> is_name_char(#[trigger] s[i])
}

/// The environment-variable name a flag name derives: letters uppercased,
/// dashes turned to underscores.
pub open spec fn env_name(s: Seq<char>) -> Seq<char> {
    s.map_values(|c: char| env_char(c))
}

/// Whether this text may be a flag name.
pub fn name_ok(s: &str) -> (b: bool)
    ensures
        b == valid_name(s@),
{
    let n = s.unicode_len();
    if n == 0 {
        return false;
    }
    let mut i: usize = 0;
    while i < n
        invariant
            0 <= i <= n,
            n == s@.len(),
            forall|j: int| 0 <= j < i ==> is_name_char(#[trigger] s@[j]),
        decreases n - i,
    {
        if !exec_is_name_char(s.get_char(i)) {
            return false;
        }
        i = i + 1;
    }
    true
}

/// Whether this character may be a shorthand.
pub fn shorthand_ok(c: char) -> (b: bool)
    ensures
        b == is_alnum(c),
{
    exec_is_alnum(c)
}

/// The spec-level shape of a flag.
pub struct FlagView {
    pub name: Seq<char>,
    pub shorthand: Option<char>,
    pub default_value: ValueView,
    pub value: ValueView,
    pub description: Option<Seq<char>>,
    pub env_delimiter: Option<Seq<char>>,
    pub exclude_from_usage: bool,
}

/// A well-formed flag: valid name, alphanumeric shorthand if any, the
/// current value of the default's shape, and a nonempty delimiter only on an
/// array flag.
pub open spec fn flag_wf(f: FlagView) -> bool {
    &&& valid_name(f.name)
    &&& match f.shorthand {
        Some(c) => is_alnum(c),
        None => true,
    }
    &&& view_tag(f.value) == view_tag(f.default_value)
    &&& match f.env_delimiter {
        Some(d) => is_array_tag(view_tag(f.default_value)) && d.len() > 0,
        None => true,
    }
}

/// One named, typed setting.
pub struct Flag {
    pub name: String,
    pub shorthand: Option<char>,
    pub default_value: FlagValue,
    pub value: FlagValue,
    pub description: Option<String>,
    pub env_delimiter: Option<String>,
    pub exclude_from_usage: bool,
}

impl View for Flag {
    type V = FlagView;

    open spec fn view(&self) -> FlagView {
        FlagView {
            name: self.name@,
            shorthand: self.shorthand,
            default_value: self.default_value@,
            value: self.value@,
            description: match self.description {
                Some(d) => Some(d@),
                None => None,
            },
            env_delimiter: match self.env_delimiter {
                Some(d) => Some(d@),
                None => None,
            },
            exclude_from_usage: self.exclude_from_usage,
        }
    }
}

impl Clone for Flag {
    /// A clone carries the very same flag.
    fn clone(&self) -> (r: Self)
        ensures
            r@ == self@,
    {
        Flag {
            name: self.name.clone(),
            shorthand: self.shorthand,
            default_value: self.default_value.clone(),
            value: self.value.clone(),
            description: match &self.description {
                Some(d) => Some(d.clone()),
                None => None,
            },
            env_delimiter: match &self.env_delimiter {
                Some(d) => Some(d.clone()),
                None => None,
            },
            exclude_from_usage: self.exclude_from_usage,
        }
    }
}

impl Flag {
    /// A new flag with this name and default value; the current value starts
    /// as the default. The name must be valid: an unchecked caller uses
    /// `try_new`.
    pub fn new(name: &str, default_value: FlagValue) -> (f: Flag)
        requires
            valid_name(name@),
        ensures
            f@ == (FlagView {
                name: name@,
                shorthand: None,
                default_value: default_value@,
                value: default_value@,
                description: None,
                env_delimiter: None,
                exclude_from_usage: false,
            }),
            flag_wf(f@),
    {
        let value = default_value.clone();
        Flag {
            name: name.to_owned(),
            shorthand: None,
            default_value,
            value,
            description: None,
            env_delimiter: None,
            exclude_from_usage: false,
        }
    }

    /// A new flag, or `None` exactly where the name is not a valid flag
    /// name.
    pub fn try_new(name: &str, default_value: FlagValue) -> (r: Option<Flag>)
        ensures
            match r {
                Some(f) => valid_name(name@) && f@ == (FlagView {
                    name: name@,
                    shorthand: None,
                    default_value: default_value@,
                    value: default_value@,
                    description: None,
                    env_delimiter: None,
                    exclude_from_usage: false,
                }) && flag_wf(f@),
                None => !valid_name(name@),
            },
    {
        if name_ok(name) {
            Some(Flag::new(name, default_value))
        } else {
            None
        }
    }

    /// This flag with the shorthand letter set. The letter must be
    /// alphanumeric: an unchecked caller uses `try_with_shorthand`.
    pub fn shorthand(self, c: char) -> (f: Flag)
        requires
            is_alnum(c),
        ensures
            f@ == (FlagView { shorthand: Some(c), ..self@ }),
    {
        Flag { shorthand: Some(c), ..self }
    }

    /// This flag with the shorthand letter set, or `None` exactly where the
    /// letter is not alphanumeric.
    pub fn try_with_shorthand(self, c: char) -> (r: Option<Flag>)
        ensures
            match r {
                Some(f) => is_alnum(c) && f@ == (FlagView { shorthand: Some(c), ..self@ }),
                None => !is_alnum(c),
            },
    {
        if shorthand_ok(c) {
            Some(self.shorthand(c))
        } else {
            None
        }
    }

    /// This flag with a description, shown in the usage text.
    pub fn description(self, d: &str) -> (f: Flag)
        ensures
            f@ == (FlagView { description: Some(d@), ..self@ }),
    {
        Flag { description: Some(d.to_owned()), ..self }
    }

    /// This flag with the delimiter its environment variable is split by.
    /// Only an array flag may have one, and it may not be empty: an
    /// unchecked caller uses `try_with_env_delimiter`.
    pub fn env_delimiter(self, d: &str) -> (f: Flag)
        requires
            is_array_tag(view_tag(self@.default_value)),
            d@.len() > 0,
        ensures
            f@ == (FlagView { env_delimiter: Some(d@), ..self@ }),
    {
        Flag { env_delimiter: Some(d.to_owned()), ..self }
    }

    /// This flag with the delimiter set, or `None` exactly where the flag is
    /// not array-valued or the delimiter is empty.
    pub fn try_with_env_delimiter(self, d: &str) -> (r: Option<Flag>)
        ensures
            match r {
                Some(f) => is_array_tag(view_tag(self@.default_value)) && d@.len() > 0 && f@
                    == (FlagView { env_delimiter: Some(d@), ..self@ }),
                None => !(is_array_tag(view_tag(self@.default_value)) && d@.len() > 0),
            },
    {
        if self.default_value.is_vec() && d.unicode_len() > 0 {
            Some(self.env_delimiter(d))
        } else {
            None
        }
    }

    /// This flag left out of the usage text.
    pub fn exclude_from_usage(self) -> (f: Flag)
        ensures
            f@ == (FlagView { exclude_from_usage: true, ..self@ }),
    {
        Flag { exclude_from_usage: true, ..self }
    }

    /// The name of the environment variable this flag reads: the name
    /// uppercased, dashes as underscores.
    pub fn env_var_name(&self) -> (r: String)
        ensures
            r@ == env_name(self@.name),
    {
        let n = self.name.as_str().unicode_len();
        let mut out = String::new();
        let mut i: usize = 0;
        while i < n
            invariant
                0 <= i <= n,
                n == self.name@.len(),
                out@ =~= self.name@.subrange(0, i as int).map_values(|c: char| env_char(c)),
            decreases n - i,
        {
            let c = exec_env_char(self.name.as_str().get_char(i));
            let ghost pre = out@;
            out.push(c);
            proof {
                assert(self.name@.subrange(0, i as int + 1).map_values(|c: char| env_char(c)) =~= self.name@.subrange(
                    0,
                    i as int,
                ).map_values(|c: char| env_char(c)).push(env_char(self.name@[i as int])));
            }
            i = i + 1;
        }
        proof {
            assert(self.name@.subrange(0, n as int) =~= self.name@);
        }
        out
    }
}

} // verus!

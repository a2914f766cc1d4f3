//! Configuration values: a tagged union over strings, integers, booleans,
//! arrays and string-keyed objects, with the coercion rules between the
//! scalar forms.

use vstd::prelude::*;
use vstd::string::StringExecFns;
use crate::strutil::{
    ascii_lower, chars_of, dec_int_text, i64_to_string, parse_i64, parse_i64_spec, to_ascii_lower,
};

verus! {

/// A configuration value.
#[derive(Debug, PartialEq)]
pub enum ConfigValue {
    /// A text value.
    String(String),
    /// An integer value.
    Integer(i64),
    /// A boolean value.
    Boolean(bool),
    /// An array of values.
    Array(Vec<ConfigValue>),
    /// A string-keyed object.
    Object(Vec<(String, ConfigValue)>),
}

/// The mathematical shape of a configuration value.
pub enum ConfigData {
    /// A text value.
    Text(Seq<char>),
    /// An integer value.
    Int(int),
    /// A boolean value.
    Flag(bool),
    /// An array of values.
    List(Seq<ConfigData>),
    /// A string-keyed object.
    Table(Seq<(Seq<char>, ConfigData)>),
}

/// The shape of a configuration value.
pub open spec fn cv_view(v: ConfigValue) -> ConfigData
    decreases v,
{
    match v {
        ConfigValue::String(s) => ConfigData::Text(s@),
        ConfigValue::Integer(i) => ConfigData::Int(i as int),
        ConfigValue::Boolean(b) => ConfigData::Flag(b),
        ConfigValue::Array(items) => ConfigData::List(cv_views(items@)),
        ConfigValue::Object(pairs) => ConfigData::Table(cv_pair_views(pairs@)),
    }
}

/// The shapes of a sequence of configuration values.
pub open spec fn cv_views(s: Seq<ConfigValue>) -> Seq<ConfigData>
    decreases s,
{
    if s.len() == 0 {
        Seq::empty()
    } else {
        cv_views(s.drop_last()).push(cv_view(s.last()))
    }
}

/// The shapes of a sequence of named configuration values.
pub open spec fn cv_pair_views(s: Seq<(String, ConfigValue)>) -> Seq<(Seq<char>, ConfigData)>
    decreases s,
{
    if s.len() == 0 {
        Seq::empty()
    } else {
        cv_pair_views(s.drop_last()).push((s.last().0@, cv_view(s.last().1)))
    }
}

/// The shapes of a sequence are its values' shapes, elementwise.
pub proof fn lemma_cv_views_index(s: Seq<ConfigValue>)
    ensures
        cv_views(s).len() == s.len(),
        forall|i: int| 0 <= i < s.len() ==> cv_views(s)[i] == cv_view(#[trigger] s[i]),
    decreases s.len(),
{
    if s.len() > 0 {
        lemma_cv_views_index(s.drop_last());
        assert forall|i: int| 0 <= i < s.len() implies cv_views(s)[i] == cv_view(
            #[trigger] s[i],
        ) by {
            if i < s.len() - 1 {
                assert(s.drop_last()[i] == s[i]);
                assert(cv_views(s)[i] == cv_views(s.drop_last())[i]);
            } else {
                assert(s[i] == s.last());
            }
        }
    }
}

/// The shapes of a named sequence are its entries' shapes, elementwise.
pub proof fn lemma_cv_pair_views_index(s: Seq<(String, ConfigValue)>)
    ensures
        cv_pair_views(s).len() == s.len(),
        forall|i: int|
            0 <= i < s.len() ==> cv_pair_views(s)[i] == ((#[trigger] s[i]).0@, cv_view(s[i].1)),
    decreases s.len(),
{
    if s.len() > 0 {
        lemma_cv_pair_views_index(s.drop_last());
        assert forall|i: int|
            0 <= i < s.len() implies cv_pair_views(s)[i] == ((#[trigger] s[i]).0@, cv_view(
            s[i].1,
        )) by {
            if i < s.len() - 1 {
                assert(s.drop_last()[i] == s[i]);
                assert(cv_pair_views(s)[i] == cv_pair_views(s.drop_last())[i]);
            } else {
                assert(s[i] == s.last());
            }
        }
    }
}

impl View for ConfigValue {
    type V = ConfigData;

    open spec fn view(&self) -> ConfigData {
        cv_view(*self)
    }
}

/// The text a scalar shape coerces to: its own characters for a text
/// value, decimal digits for an integer, `true` or `false` for a boolean;
/// arrays and objects have none.
pub open spec fn data_scalar_text(d: ConfigData) -> Option<Seq<char>> {
    match d {
        ConfigData::Text(t) => Some(t),
        ConfigData::Int(i) => Some(dec_int_text(i)),
        ConfigData::Flag(b) => Some(
            if b {
                "true"@
            } else {
                "false"@
            },
        ),
        _ => None,
    }
}

/// The integer a shape coerces to: an integer itself, or a text value
/// parsed as a decimal number.
pub open spec fn data_integer(d: ConfigData) -> Option<int> {
    match d {
        ConfigData::Int(i) => Some(i),
        ConfigData::Text(t) => match parse_i64_spec(t) {
            Some(v) => Some(v as int),
            None => None,
        },
        _ => None,
    }
}

/// The boolean a token denotes, ignoring ASCII case: `true`, `yes`, `on`
/// and `1` are true; `false`, `no`, `off` and `0` are false.
pub open spec fn bool_token_val(s: Seq<char>) -> Option<bool> {
    let l = ascii_lower(s);
    if l == "true"@ || l == "yes"@ || l == "on"@ || l == "1"@ {
        Some(true)
    } else if l == "false"@ || l == "no"@ || l == "off"@ || l == "0"@ {
        Some(false)
    } else {
        None
    }
}

/// The boolean a shape coerces to: a boolean itself, a recognised text
/// token, or an integer's being nonzero.
pub open spec fn data_boolean(d: ConfigData) -> Option<bool> {
    match d {
        ConfigData::Flag(b) => Some(b),
        ConfigData::Text(t) => bool_token_val(t),
        ConfigData::Int(i) => Some(i != 0),
        _ => None,
    }
}

/// Whether the given characters are exactly the characters of the text.
pub fn chars_equal_text(v: &Vec<char>, t: &str) -> (r: bool)
    ensures
        r == (v@ == t@),
{
    let tc = chars_of(t);
    let n = v.len();
    if n != tc.len() {
        proof {
            assert(v@.len() != t@.len());
        }
        return false;
    }
    let mut i: usize = 0;
    while i < n
        invariant
            n == v@.len(),
            n == tc@.len(),
            tc@ == t@,
            i <= n,
            forall|j: int| 0 <= j < i ==> v@[j] == t@[j],
        decreases n - i,
    {
        if v[i] != tc[i] {
            return false;
        }
        i += 1;
    }
    proof {
        assert(v@ =~= t@);
    }
    true
}

impl ConfigValue {
    /// A copy of this value with the same shape.
    #[verifier::loop_isolation(false)]
    pub fn duplicate(&self) -> (r: Self)
        ensures
            r@ == self@,
        decreases self,
    {
        match self {
            ConfigValue::String(s) => ConfigValue::String(s.clone()),
            ConfigValue::Integer(i) => ConfigValue::Integer(*i),
            ConfigValue::Boolean(b) => ConfigValue::Boolean(*b),
            ConfigValue::Array(items) => {
                let n = items.len();
                let mut out: Vec<ConfigValue> = Vec::new();
                let mut i: usize = 0;
                while i < n
                    invariant
                        n == items@.len(),
                        i <= n,
                        out@.len() == i,
                        cv_views(out@) =~= cv_views(items@).take(i as int),
                    decreases n - i,
                {
                    proof {
                        assert(decreases_to!(*self => *items));
                        assert(decreases_to!(*items => items@));
                        assert(decreases_to!(items@ => items@[i as int]));
                    }
                    let ghost prev = out@;
                    let copied = items[i].duplicate();
                    out.push(copied);
                    proof {
                        assert(out@.drop_last() =~= prev);
                        assert(cv_views(out@) == cv_views(prev).push(cv_view(copied)));
                        lemma_cv_views_index(items@);
                        assert(cv_views(out@) =~= cv_views(items@).take(i + 1));
                    }
                    i += 1;
                }
                proof {
                    lemma_cv_views_index(items@);
                    assert(cv_views(items@).take(n as int) =~= cv_views(items@));
                }
                ConfigValue::Array(out)
            },
            ConfigValue::Object(pairs) => {
                let n = pairs.len();
                let mut out: Vec<(String, ConfigValue)> = Vec::new();
                let mut i: usize = 0;
                while i < n
                    invariant
                        n == pairs@.len(),
                        i <= n,
                        out@.len() == i,
                        cv_pair_views(out@) =~= cv_pair_views(pairs@).take(i as int),
                    decreases n - i,
                {
                    proof {
                        assert(decreases_to!(*self => *pairs));
                        assert(decreases_to!(*pairs => pairs@));
                        assert(decreases_to!(pairs@ => pairs@[i as int]));
                        assert(decreases_to!(pairs@[i as int] => pairs@[i as int].1));
                    }
                    let ghost prev = out@;
                    let name = pairs[i].0.clone();
                    let copied = pairs[i].1.duplicate();
                    out.push((name, copied));
                    proof {
                        assert(out@.drop_last() =~= prev);
                        lemma_cv_pair_views_index(pairs@);
                        assert(cv_pair_views(out@) == cv_pair_views(prev).push(
                            (name@, cv_view(copied)),
                        ));
                        assert(cv_pair_views(out@) =~= cv_pair_views(pairs@).take(i + 1));
                    }
                    i += 1;
                }
                proof {
                    lemma_cv_pair_views_index(pairs@);
                    assert(cv_pair_views(pairs@).take(n as int) =~= cv_pair_views(pairs@));
                }
                ConfigValue::Object(out)
            },
        }
    }

    /// Coerces this value to text: a string gives its own text, an integer
    /// its decimal form, a boolean `true` or `false`; arrays and objects
    /// give nothing.
    pub fn as_string(&self) -> (r: Option<String>)
        ensures
            match r {
                Some(s) => data_scalar_text(self@) == Some(s@),
                None => data_scalar_text(self@) is None,
            },
    {
        match self {
            ConfigValue::String(s) => Some(s.clone()),
            ConfigValue::Integer(i) => Some(i64_to_string(*i)),
            ConfigValue::Boolean(b) => {
                if *b {
                    Some("true".to_owned())
                } else {
                    Some("false".to_owned())
                }
            },
            _ => None,
        }
    }

    /// Coerces this value to an integer: an integer gives itself, a string
    /// is parsed as a decimal number; everything else gives nothing.
    pub fn as_integer(&self) -> (r: Option<i64>)
        ensures
            r matches Some(v) ==> data_integer(self@) == Some(v as int),
            r is None ==> data_integer(self@) is None,
    {
        match self {
            ConfigValue::Integer(i) => Some(*i),
            ConfigValue::String(s) => {
                let cs = chars_of(s.as_str());
                parse_i64(&cs)
            },
            _ => None,
        }
    }

    /// Coerces this value to a boolean: a boolean gives itself, a string
    /// is matched against the usual tokens ignoring ASCII case, an integer
    /// is true when nonzero; everything else gives nothing.
    pub fn as_boolean(&self) -> (r: Option<bool>)
        ensures
            r == data_boolean(self@),
    {
        match self {
            ConfigValue::Boolean(b) => Some(*b),
            ConfigValue::Integer(i) => Some(*i != 0),
            ConfigValue::String(s) => {
                let cs = chars_of(s.as_str());
                let lower = to_ascii_lower(&cs);
                if chars_equal_text(&lower, "true") || chars_equal_text(&lower, "yes")
                    || chars_equal_text(&lower, "on") || chars_equal_text(&lower, "1") {
                    Some(true)
                } else if chars_equal_text(&lower, "false") || chars_equal_text(&lower, "no")
                    || chars_equal_text(&lower, "off") || chars_equal_text(&lower, "0") {
                    Some(false)
                } else {
                    None
                }
            },
            _ => None,
        }
    }

    /// The array items, if this value is an array.
    pub fn as_array(&self) -> (r: Option<&Vec<ConfigValue>>)
        ensures
            r matches Some(items) ==> self@ == ConfigData::List(cv_views(items@)),
            r is None ==> !(self@ matches ConfigData::List(_)),
    {
        match self {
            ConfigValue::Array(items) => Some(items),
            _ => None,
        }
    }

    /// The object's fields, if this value is an object.
    pub fn as_object(&self) -> (r: Option<&Vec<(String, ConfigValue)>>)
        ensures
            r matches Some(pairs) ==> self@ == ConfigData::Table(cv_pair_views(pairs@)),
            r is None ==> !(self@ matches ConfigData::Table(_)),
    {
        match self {
            ConfigValue::Object(pairs) => Some(pairs),
            _ => None,
        }
    }
}

} // verus!

//! Parameters of a connector: what can be set, and how a setting is read.
use vstd::prelude::*;

use crate::numeral;
use crate::numeral::{parse_number, parse_u16};
use crate::text;
use crate::text::same_text;

verus! {

/// A parameter that can be set.
#[derive(Clone, Copy, Debug)]
pub struct ParameterSpec {
    pub name: &'static str,
    pub description: &'static str,
    pub default: Option<&'static str>,
    /// Whether the value must not be shown.
    pub secret: bool,
}

/// What a [`ParameterSpec`] says.
pub struct ParameterModel {
    pub name: Seq<char>,
    pub description: Seq<char>,
    pub default: Option<Seq<char>>,
    pub secret: bool,
}

impl View for ParameterSpec {
    type V = ParameterModel;

    open spec fn view(&self) -> ParameterModel {
        ParameterModel {
            name: self.name@,
            description: self.description@,
            default: match self.default {
                Some(d) => Some(d@),
                None => None,
            },
            secret: self.secret,
        }
    }
}

/// What a list of parameters says.
pub open spec fn parameter_models(v: Seq<ParameterSpec>) -> Seq<ParameterModel> {
    Seq::new(v.len(), |i: int| v[i]@)
}

/// A parameter without a default.
pub open spec fn plain(name: Seq<char>, description: Seq<char>) -> ParameterModel {
    ParameterModel { name, description, default: None, secret: false }
}

/// A parameter with a default.
pub open spec fn defaulted(
    name: Seq<char>,
    description: Seq<char>,
    default: Seq<char>,
) -> ParameterModel {
    ParameterModel { name, description, default: Some(default), secret: false }
}

/// A parameter whose value must not be shown.
pub open spec fn hidden(name: Seq<char>, description: Seq<char>) -> ParameterModel {
    ParameterModel { name, description, default: None, secret: true }
}

impl ParameterSpec {
    /// A parameter without a default.
    pub fn component(name: &'static str, description: &'static str) -> (r: Self)
        ensures
            r@ == plain(name@, description@),
    {
        ParameterSpec { name, description, default: None, secret: false }
    }

    /// A parameter with a default.
    pub fn with_default(
        name: &'static str,
        description: &'static str,
        default: &'static str,
    ) -> (r: Self)
        ensures
            r@ == defaulted(name@, description@, default@),
    {
        ParameterSpec { name, description, default: Some(default), secret: false }
    }

    /// A parameter whose value must not be shown.
    pub fn secret(name: &'static str, description: &'static str) -> (r: Self)
        ensures
            r@ == hidden(name@, description@),
    {
        ParameterSpec { name, description, default: None, secret: true }
    }
}

/// The settings of a list of entries: of several entries of one name the last
/// counts.
pub open spec fn settings(entries: Seq<(String, String)>) -> Map<Seq<char>, Seq<char>>
    decreases entries.len(),
{
    if entries.len() == 0 {
        Map::empty()
    } else {
        settings(entries.drop_last()).insert(entries.last().0@, entries.last().1@)
    }
}

/// Settings by the names of their parameters.
#[derive(Debug)]
pub struct Parameters {
    entries: Vec<(String, String)>,
}

impl View for Parameters {
    type V = Map<Seq<char>, Seq<char>>;

    closed spec fn view(&self) -> Map<Seq<char>, Seq<char>> {
        settings(self.entries@)
    }
}

/// The setting of a parameter.
pub open spec fn given(m: Map<Seq<char>, Seq<char>>, key: Seq<char>) -> Option<Seq<char>> {
    if m.dom().contains(key) {
        Some(m[key])
    } else {
        None
    }
}

/// The setting of a parameter, unless it is empty.
pub open spec fn filled(m: Map<Seq<char>, Seq<char>>, key: Seq<char>) -> Option<Seq<char>> {
    match given(m, key) {
        Some(v) => if v.len() == 0 {
            None
        } else {
            Some(v)
        },
        None => None,
    }
}

/// A setting, or a default in its place.
pub open spec fn or_default(v: Option<Seq<char>>, default: Seq<char>) -> Seq<char> {
    match v {
        Some(s) => s,
        None => default,
    }
}

/// Whether a setting switches something on.
pub open spec fn is_on(v: Option<Seq<char>>) -> bool {
    v == Some("true"@) || v == Some("1"@) || v == Some("yes"@)
}

/// The number of a setting, or a default where it is unset or no number.
pub open spec fn number_or(v: Option<Seq<char>>, default: u64) -> nat {
    match v {
        Some(s) => match numeral::numeral_up_to(s, u64::MAX as nat) {
            Some(n) => n,
            None => default as nat,
        },
        None => default as nat,
    }
}

/// A user name and a password as one token.
pub open spec fn combined(username: Option<Seq<char>>, password: Option<Seq<char>>) -> Option<
    Seq<char>,
> {
    match (username, password) {
        (Some(u), Some(p)) => Some(u + ":"@ + p),
        _ => None,
    }
}

/// The low 32 bits of a number.
pub open spec fn low_word(n: nat) -> u32 {
    (n % 0x1_0000_0000) as u32
}

impl Parameters {
    pub fn new() -> (r: Self)
        ensures
            r@ == Map::<Seq<char>, Seq<char>>::empty(),
    {
        Parameters { entries: Vec::new() }
    }

    /// Sets a parameter, in place of an earlier setting.
    pub fn set(&mut self, key: String, value: String)
        ensures
            final(self)@ == old(self)@.insert(key@, value@),
    {
        let ghost before = self.entries@;
        self.entries.push((key, value));
        proof {
            assert(self.entries@.drop_last() == before);
        }
    }

    /// The setting of a parameter.
    pub fn get(&self, key: &str) -> (r: Option<&str>)
        ensures
            match r {
                Some(v) => given(self@, key@) == Some(v@),
                None => given(self@, key@) is None,
            },
    {
        let mut i: usize = self.entries.len();
        assert(self.entries@.take(i as int) == self.entries@);
        while i > 0
            invariant
                i <= self.entries.len(),
                given(self@, key@) == given(settings(self.entries@.take(i as int)), key@),
            decreases i,
        {
            i -= 1;
            assert(self.entries@.take(i + 1).drop_last() == self.entries@.take(i as int));
            if same_text(self.entries[i].0.as_str(), key) {
                return Some(self.entries[i].1.as_str());
            }
        }
        None
    }

    /// The setting of a parameter, as a text of its own.
    pub fn get_owned(&self, key: &str) -> (r: Option<String>)
        ensures
            text::text_of(r) == given(self@, key@),
    {
        match self.get(key) {
            Some(v) => Some(v.to_owned()),
            None => None,
        }
    }

    /// The setting of a parameter, unless it is empty.
    pub fn get_filled(&self, key: &str) -> (r: Option<String>)
        ensures
            text::text_of(r) == filled(self@, key@),
    {
        match self.get(key) {
            Some(v) => if v.is_empty() {
                None
            } else {
                Some(v.to_owned())
            },
            None => None,
        }
    }
}

/// A setting, or a default in its place.
pub fn text_or(v: Option<String>, default: &str) -> (r: String)
    ensures
        r@ == or_default(text::text_of(v), default@),
{
    match v {
        Some(s) => s,
        None => default.to_owned(),
    }
}

/// Whether a setting switches something on.
pub fn switched_on(v: &Option<String>) -> (r: bool)
    ensures
        r == is_on(text::text_of(*v)),
{
    match v {
        Some(s) => same_text(s.as_str(), "true") || same_text(s.as_str(), "1") || same_text(
            s.as_str(),
            "yes",
        ),
        None => false,
    }
}

/// The number of a setting, or a default.
pub fn read_number(v: &Option<String>, default: u64) -> (r: u64)
    ensures
        r == number_or(text::text_of(*v), default),
{
    match v {
        Some(s) => match parse_number(s.as_str(), u64::MAX) {
            Some(n) => n,
            None => default,
        },
        None => default,
    }
}

/// A user name and a password as one token.
pub fn combine(username: &Option<String>, password: &Option<String>) -> (r: Option<String>)
    ensures
        text::text_of(r) == combined(text::text_of(*username), text::text_of(*password)),
{
    match (username, password) {
        (Some(u), Some(p)) => {
            let mut r = u.clone();
            r.push_str(":");
            r.push_str(p.as_str());
            Some(r)
        },
        _ => None,
    }
}

/// The low 32 bits of a number.
pub fn low_bits(n: u64) -> (r: u32)
    ensures
        r == low_word(n as nat),
{
    (n % 0x1_0000_0000) as u32
}

/// A port, or why the text is none.
pub open spec fn port(s: Seq<char>) -> Result<u16, Seq<char>> {
    match numeral::numeral_up_to(s, u16::MAX as nat) {
        Some(n) => Ok(n as u16),
        None => Err("invalid port: "@ + numeral::u16_error_text(s)),
    }
}

/// A port, or why the text is none.
pub fn read_port(s: &str) -> (r: Result<u16, String>)
    ensures
        match r {
            Ok(p) => port(s@) == Ok::<u16, Seq<char>>(p),
            Err(e) => port(s@) == Err::<u16, Seq<char>>(e@),
        },
{
    match parse_u16(s) {
        Ok(p) => Ok(p),
        Err(e) => {
            let mut m = "invalid port: ".to_owned();
            m.push_str(e.as_str());
            Err(m)
        },
    }
}

// ---------------------------------------------------------------------------
// What a setting means
// ---------------------------------------------------------------------------

/// A text is set under a key.
pub open spec fn is_set(m: Map<Seq<char>, Seq<char>>, key: Seq<char>, v: Seq<char>) -> bool {
    m.dom().contains(key) && m[key] == v && v.len() > 0
}

/// Nothing, or an empty text, is set under a key.
pub open spec fn is_unset(m: Map<Seq<char>, Seq<char>>, key: Seq<char>) -> bool {
    m.dom().contains(key) ==> m[key].len() == 0
}

/// What is set is what is read, an empty text counting as nothing; a switch is on where
/// it says so in one of three ways; a number is read where it is one, and else the
/// default holds.
pub proof fn law_settings_are_read(
    m: Map<Seq<char>, Seq<char>>,
    key: Seq<char>,
    v: Seq<char>,
    default: Seq<char>,
    number: u64,
)
    ensures
        is_set(m, key, v) ==> filled(m, key) == Some(v) && given(m, key) == Some(v) && or_default(
            filled(m, key),
            default,
        ) == v,
        is_unset(m, key) ==> filled(m, key) is None && or_default(filled(m, key), default)
            == default,
        m.dom().contains(key) ==> given(m, key) == Some(m[key]),
        !m.dom().contains(key) ==> given(m, key) is None,
        is_on(Some(v)) <==> v == "true"@ || v == "1"@ || v == "yes"@,
        !is_on(None),
        number_or(None, number) == number,
        numeral::numeral(v) matches Some(n) && n <= u64::MAX ==> number_or(Some(v), number)
            == numeral::numeral(v)->0,
        numeral::numeral(v) is None ==> number_or(Some(v), number) == number,
        combined(Some(v), Some(default)) == Some(v + ":"@ + default),
        combined(None, Some(v)) is None && combined(Some(v), None) is None,
        number < 0x1_0000_0000 ==> low_word(number as nat) == number,
        numeral::numeral(v) matches Some(n) && n <= 65535 ==> port(v) == Ok::<u16, Seq<char>>(
            (numeral::numeral(v)->0) as u16,
        ),
        (numeral::numeral(v) matches Some(n) ==> n > 65535) ==> port(v) is Err,
{
}

} // verus!

//! The configuration source that initializers read their settings from.
//!
//! A source holds plain values: whoever loads the configuration reads each
//! setting once, as text, as a flag or as an integer, and stores what came of
//! it. A lookup then answers from what is stored, and reads it as the type
//! that is asked for.

use crate::error::{ConfigFault, Error};
use vstd::prelude::*;

verus! {

/// What is stored for one setting.
#[derive(Debug)]
pub enum Stored {
    /// A text.
    Text(String),
    /// A flag.
    Flag(bool),
    /// An integer.
    Integer(i128),
    /// Something that could not be read when the configuration was loaded.
    Unreadable,
}

/// The plain form of what is stored for one setting.
pub enum Plain {
    Text(Seq<char>),
    Flag(bool),
    Integer(int),
    Unreadable,
}

impl View for Stored {
    type V = Plain;

    open spec fn view(&self) -> Plain {
        match self {
            Stored::Text(text) => Plain::Text(text@),
            Stored::Flag(flag) => Plain::Flag(*flag),
            Stored::Integer(n) => Plain::Integer(*n as int),
            Stored::Unreadable => Plain::Unreadable,
        }
    }
}

/// One setting: a key and what is stored under it.
#[derive(Debug)]
pub struct Setting {
    pub key: String,
    pub value: Stored,
}

/// Where the predefined configuration is looked for.
#[derive(Debug)]
pub struct CfgParams<'a> {
    /// The name of the configuration files, without extension.
    pub name: &'a str,
    /// The directory that holds them.
    pub dir: &'a str,
    /// The prefix of the environment variables that are read.
    pub prefix_env: &'a str,
}

impl Default for CfgParams<'static> {
    /// Files named `app` in the working directory, and the environment
    /// variables that begin with `APP`.
    fn default() -> (params: Self)
        ensures
            params.name@ == "app"@,
            params.dir@ == "."@,
            params.prefix_env@ == "APP"@,
    {
        CfgParams { name: "app", dir: ".", prefix_env: "APP" }
    }
}

/// Whether `at` is the first place in `settings` that holds `key`.
pub open spec fn first_at(settings: Seq<Setting>, key: Seq<char>, at: int) -> bool {
    &&& 0 <= at < settings.len()
    &&& settings[at].key@ == key
    &&& forall|j: int| 0 <= j < at ==> (#[trigger] settings[j]).key@ != key
}

/// The settings that `settings` spell out: for each key, what the first
/// setting of that key stores.
pub open spec fn settings_of(settings: Seq<Setting>) -> Map<Seq<char>, Plain> {
    Map::new(
        |key: Seq<char>| exists|at: int| first_at(settings, key, at),
        |key: Seq<char>| settings[choose|at: int| first_at(settings, key, at)].value@,
    )
}

/// A loaded configuration: the settings that were stored, by key.
#[derive(Debug)]
pub struct CfgSource {
    settings: Vec<Setting>,
}

impl View for CfgSource {
    type V = Map<Seq<char>, Plain>;

    closed spec fn view(&self) -> Map<Seq<char>, Plain> {
        settings_of(self.settings@)
    }
}

/// The failure of a lookup that finds `stored` and cannot read it as the
/// type asked for.
pub open spec fn fault_of(stored: Option<Plain>) -> ConfigFault {
    match stored {
        None => ConfigFault::NotFound,
        Some(Plain::Unreadable) => ConfigFault::Unreadable,
        Some(_) => ConfigFault::Mismatch,
    }
}

/// Why what is stored does not read as the type asked for.
fn fault(stored: Option<&Stored>) -> (why: ConfigFault)
    ensures
        why == fault_of(
            match stored {
                Some(s) => Some(s@),
                None => None,
            },
        ),
{
    match stored {
        None => ConfigFault::NotFound,
        Some(Stored::Unreadable) => ConfigFault::Unreadable,
        Some(_) => ConfigFault::Mismatch,
    }
}

impl CfgSource {
    /// A source that holds no setting.
    pub fn new() -> (source: Self)
        ensures
            source@ == Map::<Seq<char>, Plain>::empty(),
    {
        let source = CfgSource { settings: Vec::new() };
        assert(source@ =~= Map::<Seq<char>, Plain>::empty());
        source
    }

    /// Stores `value` under `key`, unless the key holds a setting already:
    /// what was stored first stays in force.
    pub fn set(&mut self, key: &str, value: Stored)
        ensures
            final(self)@ == (if old(self)@.contains_key(key@) {
                old(self)@
            } else {
                old(self)@.insert(key@, value@)
            }),
    {
        let ghost before = self.settings@;
        let owned = key.to_owned();
        self.settings.push(Setting { key: owned, value });
        proof {
            let after = self.settings@;
            assert forall|k: Seq<char>, at: int| first_at(before, k, at) implies first_at(
                after,
                k,
                at,
            ) by {
                assert forall|j: int| 0 <= j < at implies (#[trigger] after[j]).key@ != k by {
                    assert(after[j] == before[j]);
                }
                assert(after[at] == before[at]);
            }
            assert forall|k: Seq<char>, at: int|
                first_at(after, k, at) && at < before.len() implies first_at(before, k, at) by {
                assert forall|j: int| 0 <= j < at implies (#[trigger] before[j]).key@ != k by {
                    assert(after[j] == before[j]);
                }
                assert(after[at] == before[at]);
            }
            let expected = if settings_of(before).contains_key(key@) {
                settings_of(before)
            } else {
                settings_of(before).insert(key@, value@)
            };
            assert forall|k: Seq<char>| #[trigger]
                settings_of(after).contains_key(k) <==> expected.contains_key(k) by {
                if settings_of(after).contains_key(k) {
                    let at = choose|at: int| first_at(after, k, at);
                    if at < before.len() {
                        assert(first_at(before, k, at));
                    } else {
                        assert(after[at].key@ == key@);
                    }
                }
                if expected.contains_key(k) {
                    if settings_of(before).contains_key(k) {
                        let at = choose|at: int| first_at(before, k, at);
                        assert(first_at(after, k, at));
                    } else {
                        assert(k == key@);
                        assert forall|j: int| 0 <= j < before.len() implies (
                        #[trigger] after[j]).key@ != k by {
                            if after[j].key@ == k {
                                lemma_first(before, k, j);
                            }
                        }
                        assert(first_at(after, k, before.len() as int));
                    }
                }
            }
            assert forall|k: Seq<char>| #[trigger] settings_of(after).contains_key(k) implies settings_of(
                after,
            )[k] == expected[k] by {
                let at = choose|at: int| first_at(after, k, at);
                if at < before.len() {
                    assert(first_at(before, k, at));
                    let was = choose|was: int| first_at(before, k, was);
                    lemma_one_first(before, k, at, was);
                    assert(settings_of(before).contains_key(k));
                    assert(after[at] == before[at]);
                } else {
                    assert(after[at].key@ == key@);
                    if settings_of(before).contains_key(k) {
                        let was = choose|was: int| first_at(before, k, was);
                        assert(first_at(after, k, was));
                        lemma_one_first(after, k, at, was);
                    }
                }
            }
            assert(settings_of(after) =~= expected);
        }
    }

    /// What is stored under `key`, if anything is.
    pub fn stored(&self, key: &str) -> (found: Option<&Stored>)
        ensures
            match found {
                Some(s) => self@.contains_key(key@) && self@[key@] == s@,
                None => !self@.contains_key(key@),
            },
    {
        let wanted = key.to_owned();
        let n = self.settings.len();
        let mut at: usize = 0;
        while at < n
            invariant
                n == self.settings@.len(),
                0 <= at <= n,
                wanted@ == key@,
                forall|j: int| 0 <= j < at ==> (#[trigger] self.settings@[j]).key@ != key@,
            decreases n - at,
        {
            if self.settings[at].key == wanted {
                proof {
                    assert(first_at(self.settings@, key@, at as int));
                    let chosen = choose|c: int| first_at(self.settings@, key@, c);
                    lemma_one_first(self.settings@, key@, at as int, chosen);
                }
                return Some(&self.settings[at].value);
            }
            at = at + 1;
        }
        proof {
            if self@.contains_key(key@) {
                let c = choose|c: int| first_at(self.settings@, key@, c);
                assert(self.settings@[c].key@ == key@);
            }
        }
        None
    }
}

/// A key that stands somewhere in `settings` has a first place there.
proof fn lemma_first(settings: Seq<Setting>, key: Seq<char>, at: int)
    requires
        0 <= at < settings.len(),
        settings[at].key@ == key,
    ensures
        exists|first: int| first_at(settings, key, first),
    decreases at,
{
    if forall|j: int| 0 <= j < at ==> (#[trigger] settings[j]).key@ != key {
        assert(first_at(settings, key, at));
    } else {
        let j = choose|j: int| 0 <= j < at && (#[trigger] settings[j]).key@ == key;
        lemma_first(settings, key, j);
    }
}

/// A key has one first place only.
proof fn lemma_one_first(settings: Seq<Setting>, key: Seq<char>, a: int, b: int)
    requires
        first_at(settings, key, a),
        first_at(settings, key, b),
    ensures
        a == b,
{
    if a < b {
        assert(settings[a].key@ != key);
    } else if b < a {
        assert(settings[b].key@ != key);
    }
}

/// The integer that is stored, where one is stored and lies from `low` to
/// `high`.
fn integer_within(stored: &Stored, low: i128, high: i128) -> (n: Option<i128>)
    ensures
        match n {
            Some(v) => stored@ == Plain::Integer(v as int) && low <= v <= high,
            None => !(stored@ matches Plain::Integer(m) && low <= m <= high),
        },
{
    match stored {
        Stored::Integer(v) => if low <= *v && *v <= high {
            Some(*v)
        } else {
            None
        },
        _ => None,
    }
}

/// A type that a stored setting can be read as.
pub trait IsConfig: Sized {
    /// Whether `stored` reads as a value of this type.
    spec fn readable(stored: Plain) -> bool;

    /// Whether `value` is what `stored` reads as.
    spec fn reads_as(stored: Plain, value: Self) -> bool;

    /// What `stored` reads as, where it reads as a value of this type.
    fn from_stored(stored: &Stored) -> (value: Option<Self>)
        ensures
            match value {
                Some(v) => Self::readable(stored@) && Self::reads_as(stored@, v),
                None => !Self::readable(stored@),
            },
    ;

    /// The value stored under `key` in `source`. The lookup succeeds exactly
    /// where something is stored that reads as this type, and with that
    /// value; it fails as not found where nothing is stored, and as a
    /// mismatch or as unreadable otherwise.
    fn read(source: &CfgSource, key: &str) -> (value: Result<Self, Error>)
        ensures
            match value {
                Ok(v) => {
                    &&& source@.contains_key(key@)
                    &&& Self::readable(source@[key@])
                    &&& Self::reads_as(source@[key@], v)
                },
                Err(e) => {
                    &&& !(source@.contains_key(key@) && Self::readable(source@[key@]))
                    &&& e == Error::ConfigError(fault_of(source@.get(key@)))
                },
            },
    {
        let found = source.stored(key);
        match found {
            Some(stored) => match Self::from_stored(stored) {
                Some(v) => Ok(v),
                None => Err(Error::ConfigError(fault(found))),
            },
            None => Err(Error::ConfigError(fault(found))),
        }
    }

    /// The value stored under `key` in `source`, or `default` where nothing
    /// is stored. What is stored and does not read as this type fails as a
    /// mismatch or as unreadable, default or not.
    fn read_or(source: &CfgSource, key: &str, default: Self) -> (value: Result<Self, Error>)
        ensures
            match source@.get(key@) {
                None => value == Ok::<Self, Error>(default),
                Some(stored) => if Self::readable(stored) {
                    value matches Ok(v) && Self::reads_as(stored, v)
                } else {
                    value == Err::<Self, Error>(Error::ConfigError(fault_of(Some(stored))))
                },
            },
    {
        let found = source.stored(key);
        match found {
            Some(stored) => match Self::from_stored(stored) {
                Some(v) => Ok(v),
                None => Err(Error::ConfigError(fault(found))),
            },
            None => Ok(default),
        }
    }
}

impl IsConfig for String {
    open spec fn readable(stored: Plain) -> bool {
        stored is Text
    }

    open spec fn reads_as(stored: Plain, value: String) -> bool {
        stored == Plain::Text(value@)
    }

    fn from_stored(stored: &Stored) -> (value: Option<String>) {
        match stored {
            Stored::Text(text) => Some(text.clone()),
            _ => None,
        }
    }
}

impl IsConfig for bool {
    open spec fn readable(stored: Plain) -> bool {
        stored is Flag
    }

    open spec fn reads_as(stored: Plain, value: bool) -> bool {
        stored == Plain::Flag(value)
    }

    fn from_stored(stored: &Stored) -> (value: Option<bool>) {
        match stored {
            Stored::Flag(flag) => Some(*flag),
            _ => None,
        }
    }
}

impl IsConfig for u8 {
    open spec fn readable(stored: Plain) -> bool {
        stored matches Plain::Integer(n) && u8::MIN <= n <= u8::MAX
    }

    open spec fn reads_as(stored: Plain, value: u8) -> bool {
        stored == Plain::Integer(value as int)
    }

    fn from_stored(stored: &Stored) -> (value: Option<u8>) {
        match integer_within(stored, u8::MIN as i128, u8::MAX as i128) {
            Some(n) => Some(n as u8),
            None => None,
        }
    }
}

impl IsConfig for u16 {
    open spec fn readable(stored: Plain) -> bool {
        stored matches Plain::Integer(n) && u16::MIN <= n <= u16::MAX
    }

    open spec fn reads_as(stored: Plain, value: u16) -> bool {
        stored == Plain::Integer(value as int)
    }

    fn from_stored(stored: &Stored) -> (value: Option<u16>) {
        match integer_within(stored, u16::MIN as i128, u16::MAX as i128) {
            Some(n) => Some(n as u16),
            None => None,
        }
    }
}

impl IsConfig for u32 {
    open spec fn readable(stored: Plain) -> bool {
        stored matches Plain::Integer(n) && u32::MIN <= n <= u32::MAX
    }

    open spec fn reads_as(stored: Plain, value: u32) -> bool {
        stored == Plain::Integer(value as int)
    }

    fn from_stored(stored: &Stored) -> (value: Option<u32>) {
        match integer_within(stored, u32::MIN as i128, u32::MAX as i128) {
            Some(n) => Some(n as u32),
            None => None,
        }
    }
}

impl IsConfig for u64 {
    open spec fn readable(stored: Plain) -> bool {
        stored matches Plain::Integer(n) && u64::MIN <= n <= u64::MAX
    }

    open spec fn reads_as(stored: Plain, value: u64) -> bool {
        stored == Plain::Integer(value as int)
    }

    fn from_stored(stored: &Stored) -> (value: Option<u64>) {
        match integer_within(stored, u64::MIN as i128, u64::MAX as i128) {
            Some(n) => Some(n as u64),
            None => None,
        }
    }
}

impl IsConfig for usize {
    open spec fn readable(stored: Plain) -> bool {
        stored matches Plain::Integer(n) && usize::MIN <= n <= usize::MAX
    }

    open spec fn reads_as(stored: Plain, value: usize) -> bool {
        stored == Plain::Integer(value as int)
    }

    fn from_stored(stored: &Stored) -> (value: Option<usize>) {
        match integer_within(stored, usize::MIN as i128, usize::MAX as i128) {
            Some(n) => Some(n as usize),
            None => None,
        }
    }
}

impl IsConfig for i8 {
    open spec fn readable(stored: Plain) -> bool {
        stored matches Plain::Integer(n) && i8::MIN <= n <= i8::MAX
    }

    open spec fn reads_as(stored: Plain, value: i8) -> bool {
        stored == Plain::Integer(value as int)
    }

    fn from_stored(stored: &Stored) -> (value: Option<i8>) {
        match integer_within(stored, i8::MIN as i128, i8::MAX as i128) {
            Some(n) => Some(n as i8),
            None => None,
        }
    }
}

impl IsConfig for i16 {
    open spec fn readable(stored: Plain) -> bool {
        stored matches Plain::Integer(n) && i16::MIN <= n <= i16::MAX
    }

    open spec fn reads_as(stored: Plain, value: i16) -> bool {
        stored == Plain::Integer(value as int)
    }

    fn from_stored(stored: &Stored) -> (value: Option<i16>) {
        match integer_within(stored, i16::MIN as i128, i16::MAX as i128) {
            Some(n) => Some(n as i16),
            None => None,
        }
    }
}

impl IsConfig for i32 {
    open spec fn readable(stored: Plain) -> bool {
        stored matches Plain::Integer(n) && i32::MIN <= n <= i32::MAX
    }

    open spec fn reads_as(stored: Plain, value: i32) -> bool {
        stored == Plain::Integer(value as int)
    }

    fn from_stored(stored: &Stored) -> (value: Option<i32>) {
        match integer_within(stored, i32::MIN as i128, i32::MAX as i128) {
            Some(n) => Some(n as i32),
            None => None,
        }
    }
}

impl IsConfig for i64 {
    open spec fn readable(stored: Plain) -> bool {
        stored matches Plain::Integer(n) && i64::MIN <= n <= i64::MAX
    }

    open spec fn reads_as(stored: Plain, value: i64) -> bool {
        stored == Plain::Integer(value as int)
    }

    fn from_stored(stored: &Stored) -> (value: Option<i64>) {
        match integer_within(stored, i64::MIN as i128, i64::MAX as i128) {
            Some(n) => Some(n as i64),
            None => None,
        }
    }
}

impl IsConfig for isize {
    open spec fn readable(stored: Plain) -> bool {
        stored matches Plain::Integer(n) && isize::MIN <= n <= isize::MAX
    }

    open spec fn reads_as(stored: Plain, value: isize) -> bool {
        stored == Plain::Integer(value as int)
    }

    fn from_stored(stored: &Stored) -> (value: Option<isize>) {
        match integer_within(stored, isize::MIN as i128, isize::MAX as i128) {
            Some(n) => Some(n as isize),
            None => None,
        }
    }
}

impl IsConfig for i128 {
    open spec fn readable(stored: Plain) -> bool {
        stored is Integer
    }

    open spec fn reads_as(stored: Plain, value: i128) -> bool {
        stored == Plain::Integer(value as int)
    }

    fn from_stored(stored: &Stored) -> (value: Option<i128>) {
        match stored {
            Stored::Integer(n) => Some(*n),
            _ => None,
        }
    }
}

/// Something that answers configuration lookups from a loaded configuration.
pub trait ConfigSource {
    /// The settings that the lookups are answered from.
    spec fn origin(&self) -> Map<Seq<char>, Plain>;

    /// The value stored under `key`, read as a `T`. The lookup succeeds
    /// exactly where something is stored that reads as a `T`, and with that
    /// value; it fails as not found where nothing is stored, and as a
    /// mismatch or as unreadable otherwise.
    fn get_config<T: IsConfig>(&self, key: &str) -> (value: Result<T, Error>)
        ensures
            match value {
                Ok(v) => {
                    &&& self.origin().contains_key(key@)
                    &&& T::readable(self.origin()[key@])
                    &&& T::reads_as(self.origin()[key@], v)
                },
                Err(e) => {
                    &&& !(self.origin().contains_key(key@) && T::readable(self.origin()[key@]))
                    &&& e == Error::ConfigError(fault_of(self.origin().get(key@)))
                },
            },
    ;

    /// The value stored under `key`, read as a `T`, or `default` where
    /// nothing is stored. What is stored and does not read as a `T` fails as
    /// a mismatch or as unreadable, default or not.
    fn get_config_or<T: IsConfig>(&self, key: &str, default: T) -> (value: Result<T, Error>)
        ensures
            match self.origin().get(key@) {
                None => value == Ok::<T, Error>(default),
                Some(stored) => if T::readable(stored) {
                    value matches Ok(v) && T::reads_as(stored, v)
                } else {
                    value == Err::<T, Error>(Error::ConfigError(fault_of(Some(stored))))
                },
            },
    ;
}

impl ConfigSource for CfgSource {
    open spec fn origin(&self) -> Map<Seq<char>, Plain> {
        self@
    }

    fn get_config<T: IsConfig>(&self, key: &str) -> (value: Result<T, Error>) {
        T::read(self, key)
    }

    fn get_config_or<T: IsConfig>(&self, key: &str, default: T) -> (value: Result<T, Error>) {
        T::read_or(self, key, default)
    }
}

} // verus!

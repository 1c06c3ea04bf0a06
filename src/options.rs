//! Command-line options: `-x`, `--name` and `--name=value`.
use vstd::prelude::*;
use vstd::string::{StrSliceExecFns, StringExecFns};

verus! {

/// An option of the command line: its name, and its value if one was given
/// after `=`.
#[derive(Debug)]
pub struct CliOption {
    pub name: String,
    pub value: Option<String>,
}

/// Why a word is not an option.
#[derive(Debug, PartialEq, Eq)]
pub enum CliOptionError {
    /// Neither of its first two characters is a hyphen.
    MustStartWithHyphen,
    /// It does not begin with two bytes that form whole characters.
    TooShort,
}

impl Default for CliOption {
    fn default() -> (r: Self)
        ensures
            r.name@ == Seq::<char>::empty(),
            r.value is None,
    {
        CliOption { name: String::new(), value: None }
    }
}

/// The number of bytes of `c` in UTF-8.
pub open spec fn utf8_len(c: char) -> nat {
    if (c as u32) < 0x80 {
        1
    } else if (c as u32) < 0x800 {
        2
    } else if (c as u32) < 0x10000 {
        3
    } else {
        4
    }
}

/// Whether the first two bytes of `s` form whole characters: two one-byte
/// characters, or one of two bytes.
pub open spec fn has_prefix(s: Seq<char>) -> bool {
    s.len() >= 1 && ((utf8_len(s[0]) == 1 && s.len() >= 2 && utf8_len(s[1]) == 1) || utf8_len(s[0])
        == 2)
}

/// The number of hyphens among the first two bytes of `s`.
pub open spec fn hyphens(s: Seq<char>) -> nat {
    if s.len() >= 2 && utf8_len(s[0]) == 1 {
        (if s[0] == '-' { 1nat } else { 0nat }) + (if s[1] == '-' { 1nat } else { 0nat })
    } else {
        0
    }
}

/// Whether `e` is the position of the first `=` in `s`.
pub open spec fn first_eq(s: Seq<char>, e: int) -> bool {
    0 <= e < s.len() && s[e] == '=' && forall|j: int| 0 <= j < e ==> s[j] != '='
}

/// The name of the option written `s`: what follows the hyphens, up to the
/// first `=` if there is one (nothing when that `=` stands among the hyphens).
pub open spec fn option_name(s: Seq<char>) -> Seq<char> {
    let h = hyphens(s) as int;
    if exists|e: int| first_eq(s, e) {
        let e = choose|e: int| first_eq(s, e);
        if h <= e {
            s.subrange(h, e)
        } else {
            Seq::empty()
        }
    } else {
        s.subrange(h, s.len() as int)
    }
}

/// The value of the option written `s`: what follows the first `=`, if any.
pub open spec fn option_value(s: Seq<char>) -> Option<Seq<char>> {
    if exists|e: int| first_eq(s, e) {
        let e = choose|e: int| first_eq(s, e);
        Some(s.subrange(e + 1, s.len() as int))
    } else {
        None
    }
}

/// The characters of an optional text.
pub open spec fn text_of(o: Option<String>) -> Option<Seq<char>> {
    match o {
        Some(s) => Some(s@),
        None => None,
    }
}

/// Whether `c` is one byte in UTF-8.
fn is_one_byte(c: char) -> (r: bool)
    ensures
        r == (utf8_len(c) == 1),
{
    (c as u32) < 0x80
}

/// Whether `c` is two bytes in UTF-8.
fn is_two_bytes(c: char) -> (r: bool)
    ensures
        r == (utf8_len(c) == 2),
{
    0x80 <= (c as u32) && (c as u32) < 0x800
}

impl CliOption {
    /// Reads the option written `value`.
    pub fn parse(value: &str) -> (r: Result<CliOption, CliOptionError>)
        ensures
            !has_prefix(value@) ==> r matches Err(CliOptionError::TooShort),
            has_prefix(value@) && hyphens(value@) == 0 ==> r matches Err(
                CliOptionError::MustStartWithHyphen,
            ),
            has_prefix(value@) && hyphens(value@) > 0 ==> (r matches Ok(o) && o.name@ == option_name(
                value@,
            ) && text_of(o.value) == option_value(value@)),
    {
        let len = value.unicode_len();
        if len == 0 {
            return Err(CliOptionError::TooShort);
        }
        let c0 = value.get_char(0);
        let prefix = if is_one_byte(c0) {
            len >= 2 && is_one_byte(value.get_char(1))
        } else {
            is_two_bytes(c0)
        };
        if !prefix {
            return Err(CliOptionError::TooShort);
        }
        let mut h: usize = 0;
        if is_one_byte(c0) {
            if c0 == '-' {
                h = h + 1;
            }
            if value.get_char(1) == '-' {
                h = h + 1;
            }
        }
        if h == 0 {
            return Err(CliOptionError::MustStartWithHyphen);
        }
        let mut e: usize = 0;
        while e < len
            invariant
                len == value@.len(),
                e <= len,
                forall|j: int| 0 <= j < e ==> value@[j] != '=',
            ensures
                e <= len,
                forall|j: int| 0 <= j < e ==> value@[j] != '=',
                e < len ==> value@[e as int] == '=',
            decreases len - e,
        {
            if value.get_char(e) == '=' {
                break;
            }
            e = e + 1;
        }
        let mut option = CliOption::default();
        if e < len {
            proof {
                assert(first_eq(value@, e as int));
                assert forall|f: int| first_eq(value@, f) implies f == e by {
                    if f < e {
                    } else if f > e {
                        assert(value@[e as int] == '=');
                    }
                }
            }
            if h <= e {
                option.name = String::from_str(value.substring_char(h, e));
            }
            option.value = Some(String::from_str(value.substring_char(e + 1, len)));
        } else {
            option.name = String::from_str(value.substring_char(h, len));
        }
        Ok(option)
    }
}

impl TryFrom<String> for CliOption {
    type Error = CliOptionError;

    /// Reads the option written `value`, as [`CliOption::parse`] does.
    fn try_from(value: String) -> Result<Self, Self::Error> {
        CliOption::parse(value.as_str())
    }
}

impl vstd::std_specs::convert::TryFromSpecImpl<String> for CliOption {
    open spec fn obeys_try_from_spec() -> bool {
        false
    }

    open spec fn try_from_spec(v: String) -> Result<Self, Self::Error> {
        arbitrary()
    }
}

} // verus!

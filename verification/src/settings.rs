use vstd::prelude::*;

verus! {

/// Where the server keeps its files.
#[derive(Clone, Debug)]
pub enum DataDirChoice {
    /// Nothing is kept on disk.
    Disabled,
    /// In this directory.
    At(String),
    /// In the `data` directory beside the executable.
    Default,
}

/// Whether `s` spells `none` in any mix of ASCII case.
pub open spec fn spells_none(s: Seq<char>) -> bool {
    &&& s.len() == 4
    &&& (s[0] == 'n' || s[0] == 'N')
    &&& (s[1] == 'o' || s[1] == 'O')
    &&& (s[2] == 'n' || s[2] == 'N')
    &&& (s[3] == 'e' || s[3] == 'E')
}

/// The data directory that the setting `var` chooses: none for `none` (in
/// any ASCII case) or `-`, the given directory otherwise, and the default
/// when the setting is absent.
pub fn data_dir_choice(var: Option<&str>) -> (r: DataDirChoice)
    ensures
        match var {
            None => r is Default,
            Some(s) => if spells_none(s@) || s@ == seq!['-'] {
                r is Disabled
            } else {
                r matches DataDirChoice::At(d) && d@ == s@
            },
        },
{
    match var {
        None => DataDirChoice::Default,
        Some(s) => {
            let n = s.unicode_len();
            let none_word = n == 4 && {
                let c0 = s.get_char(0);
                let c1 = s.get_char(1);
                let c2 = s.get_char(2);
                let c3 = s.get_char(3);
                (c0 == 'n' || c0 == 'N') && (c1 == 'o' || c1 == 'O') && (c2 == 'n' || c2 == 'N') && (
                c3 == 'e' || c3 == 'E')
            };
            let dash = n == 1 && s.get_char(0) == '-';
            proof {
                if n == 1 && s@[0] == '-' {
                    assert(s@ =~= seq!['-']);
                }
            }
            if none_word || dash {
                DataDirChoice::Disabled
            } else {
                DataDirChoice::At(String::from_str(s))
            }
        },
    }
}

/// A setting taken from the environment replaces the stored one when it is
/// given and not empty.
pub fn setting_override(stored: String, var: Option<String>) -> (r: String)
    ensures
        r == match var {
            Some(v) => if v@.len() > 0 {
                v
            } else {
                stored
            },
            None => stored,
        },
{
    match var {
        Some(v) => if v.as_str().unicode_len() > 0 {
            v
        } else {
            stored
        },
        None => stored,
    }
}

/// The value of the decimal digits `d`.
pub open spec fn decimal_value(d: Seq<char>) -> int
    decreases d.len(),
{
    if d.len() == 0 {
        0
    } else {
        decimal_value(d.drop_last()) * 10 + (d.last() as u32 - '0' as u32)
    }
}

/// Whether every character of `d` is an ASCII digit.
pub open spec fn all_digits(d: Seq<char>) -> bool {
    forall|k: int| 0 <= k < d.len() ==> '0' <= #[trigger] d[k] <= '9'
}

/// What `str::parse::<u16>` returns: after an optional leading `+`, one or
/// more ASCII digits whose decimal value is at most 65535; anything else
/// (empty text, a sign alone, a `-`, any other character, a larger value)
/// does not parse.
pub open spec fn parsed_port(s: Seq<char>) -> Option<u16> {
    let d = if s.len() > 0 && s[0] == '+' {
        s.drop_first()
    } else {
        s
    };
    if d.len() > 0 && all_digits(d) && decimal_value(d) <= 65535 {
        Some(decimal_value(d) as u16)
    } else {
        None
    }
}

/// Calls `str::parse::<u16>`, keeping the number when it parses. The contract
/// claims what std documents for parsing an unsigned integer in base 10: an
/// optional `+` followed by digits only, in range.
#[verifier::external_body]
fn parse_port(s: &str) -> (r: Option<u16>)
    ensures
        r == parsed_port(s@),
{
    s.parse::<u16>().ok()
}

/// The port to listen on: the setting `var` when it parses as a port number,
/// else 3000.
pub fn port_setting(var: Option<&str>) -> (r: u16)
    ensures
        r == match var {
            Some(s) => match parsed_port(s@) {
                Some(p) => p,
                None => 3000u16,
            },
            None => 3000u16,
        },
{
    match var {
        Some(s) => match parse_port(s) {
            Some(p) => p,
            None => 3000,
        },
        None => 3000,
    }
}

} // verus!

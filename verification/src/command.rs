//! The command emitter: navigation commands and the exact compositor
//! command strings they turn into.

use vstd::prelude::*;
use vstd::string::StringExecFns;

verus! {

/// Whether the run changes focus or swaps window positions.
#[derive(Debug, Clone, Copy, PartialEq, Eq, Structural)]
pub enum Action {
    Focus,
    Move,
}

/// The single command a run produces: set focus to the target window, or
/// swap the focused container with the target window's container.
#[derive(Debug, Clone, Copy, PartialEq, Eq, Structural)]
pub enum NavigationCommand {
    Focus(i64),
    Swap(i64),
}

/// The character for one decimal digit value.
pub open spec fn digit_char(d: int) -> char {
    if d == 0 {
        '0'
    } else if d == 1 {
        '1'
    } else if d == 2 {
        '2'
    } else if d == 3 {
        '3'
    } else if d == 4 {
        '4'
    } else if d == 5 {
        '5'
    } else if d == 6 {
        '6'
    } else if d == 7 {
        '7'
    } else if d == 8 {
        '8'
    } else {
        '9'
    }
}

/// The decimal digits of `n`, most significant first, with no leading
/// zeroes except for zero itself.
pub open spec fn spec_digits(n: nat) -> Seq<char>
    decreases n,
{
    if n < 10 {
        seq![digit_char(n as int)]
    } else {
        spec_digits(n / 10) + seq![digit_char((n % 10) as int)]
    }
}

/// Decimal rendering of a signed id: a minus sign, if negative, followed by
/// the digits of the magnitude.
pub open spec fn spec_decimal_i64(v: int) -> Seq<char> {
    if v < 0 {
        seq!['-'] + spec_digits((-v) as nat)
    } else {
        spec_digits(v as nat)
    }
}

/// The one-character string for one decimal digit value.
fn digit_str(d: u64) -> (c: &'static str)
    requires
        d < 10,
    ensures
        c@ == seq![digit_char(d as int)],
{
    match d {
        0 => {
            proof {
                reveal_strlit("0");
            }
            "0"
        },
        1 => {
            proof {
                reveal_strlit("1");
            }
            "1"
        },
        2 => {
            proof {
                reveal_strlit("2");
            }
            "2"
        },
        3 => {
            proof {
                reveal_strlit("3");
            }
            "3"
        },
        4 => {
            proof {
                reveal_strlit("4");
            }
            "4"
        },
        5 => {
            proof {
                reveal_strlit("5");
            }
            "5"
        },
        6 => {
            proof {
                reveal_strlit("6");
            }
            "6"
        },
        7 => {
            proof {
                reveal_strlit("7");
            }
            "7"
        },
        8 => {
            proof {
                reveal_strlit("8");
            }
            "8"
        },
        _ => {
            proof {
                reveal_strlit("9");
            }
            "9"
        },
    }
}

/// The digit characters of a low-to-high digit list, read high-to-low.
spec fn low_digit_chars(ds: Seq<u64>) -> Seq<char>
    decreases ds.len(),
{
    if ds.len() == 0 {
        Seq::empty()
    } else {
        low_digit_chars(ds.drop_first()) + seq![digit_char(ds.first() as int)]
    }
}

proof fn lemma_low_digit_chars_push(ds: Seq<u64>, x: u64)
    ensures
        low_digit_chars(ds.push(x)) == seq![digit_char(x as int)] + low_digit_chars(ds),
    decreases ds.len(),
{
    if ds.len() == 0 {
        assert(ds.push(x).drop_first() =~= Seq::<u64>::empty());
        assert(low_digit_chars(ds.push(x).drop_first()) =~= Seq::<char>::empty());
        assert(low_digit_chars(ds) =~= Seq::<char>::empty());
        assert(ds.push(x).first() == x);
        assert(low_digit_chars(ds.push(x)) =~= seq![digit_char(x as int)] + low_digit_chars(ds));
    } else {
        assert(ds.push(x).drop_first() =~= ds.drop_first().push(x));
        lemma_low_digit_chars_push(ds.drop_first(), x);
        assert(low_digit_chars(ds) == low_digit_chars(ds.drop_first()) + seq![
            digit_char(ds.first() as int),
        ]);
        assert(ds.push(x).first() == ds.first());
        assert(low_digit_chars(ds.push(x)) =~= seq![digit_char(x as int)] + low_digit_chars(ds));
    }
}

/// Render an unsigned number in decimal.
pub fn decimal_u64(n: u64) -> (s: String)
    ensures
        s@ == spec_digits(n as nat),
{
    let mut digits: Vec<u64> = Vec::new();
    let mut m = n;
    while m >= 10
        invariant
            spec_digits(n as nat) == spec_digits(m as nat) + low_digit_chars(digits@),
            forall|k: int| 0 <= k < digits@.len() ==> #[trigger] digits@[k] < 10,
        decreases m,
    {
        let ghost m0 = m as nat;
        let ghost ds = digits@;
        let d = m % 10;
        digits.push(d);
        m = m / 10;
        proof {
            lemma_low_digit_chars_push(ds, d);
            assert(spec_digits(m0) == spec_digits(m as nat) + seq![digit_char(d as int)]);
            assert(spec_digits(n as nat) =~= spec_digits(m as nat) + low_digit_chars(digits@));
        }
    }
    let mut s = String::new();
    s.append(digit_str(m));
    let mut k = digits.len();
    proof {
        assert(digits@.subrange(k as int, digits@.len() as int) =~= Seq::<u64>::empty());
        assert(s@ =~= seq![digit_char(m as int)]);
    }
    while k > 0
        invariant
            k <= digits@.len(),
            spec_digits(n as nat) == spec_digits(m as nat) + low_digit_chars(digits@),
            forall|kk: int| 0 <= kk < digits@.len() ==> #[trigger] digits@[kk] < 10,
            m < 10,
            s@ == seq![digit_char(m as int)] + low_digit_chars(
                digits@.subrange(k as int, digits@.len() as int),
            ),
        decreases k,
    {
        k = k - 1;
        let d = digits[k];
        s.append(digit_str(d));
        proof {
            let tail = digits@.subrange(k as int, digits@.len() as int);
            assert(tail.first() == d);
            assert(tail.drop_first() =~= digits@.subrange(k + 1, digits@.len() as int));
        }
    }
    proof {
        assert(digits@.subrange(0, digits@.len() as int) =~= digits@);
    }
    s
}

/// Render a signed id in decimal.
pub fn decimal_i64(v: i64) -> (s: String)
    ensures
        s@ == spec_decimal_i64(v as int),
{
    if v >= 0 {
        decimal_u64(v as u64)
    } else {
        let mag: u64 = (-(v + 1)) as u64 + 1;
        proof {
            assert(mag as int == -(v as int));
        }
        let mut s = String::new();
        proof {
            reveal_strlit("-");
        }
        s.append("-");
        let rest = decimal_u64(mag);
        s.append(rest.as_str());
        proof {
            assert(s@ =~= spec_decimal_i64(v as int));
        }
        s
    }
}

/// The command text that sets focus to the window with the given id.
pub open spec fn spec_focus_command(id: int) -> Seq<char> {
    seq!['[', 'c', 'o', 'n', '_', 'i', 'd', '='] + spec_decimal_i64(id) + seq![
        ']',
        ' ',
        'f',
        'o',
        'c',
        'u',
        's',
    ]
}

/// The command text that swaps the focused container with the window that
/// has the given id.
pub open spec fn spec_swap_command(id: int) -> Seq<char> {
    seq![
        's',
        'w',
        'a',
        'p',
        ' ',
        'c',
        'o',
        'n',
        't',
        'a',
        'i',
        'n',
        'e',
        'r',
        ' ',
        'w',
        'i',
        't',
        'h',
        ' ',
        'c',
        'o',
        'n',
        '_',
        'i',
        'd',
        ' ',
    ] + spec_decimal_i64(id)
}

/// The command text of a navigation command.
pub open spec fn spec_command(c: NavigationCommand) -> Seq<char> {
    match c {
        NavigationCommand::Focus(id) => spec_focus_command(id as int),
        NavigationCommand::Swap(id) => spec_swap_command(id as int),
    }
}

impl NavigationCommand {
    /// Render the command in the compositor's command language: exactly
    /// `[con_id=<id>] focus` for a focus command and
    /// `swap container with con_id <id>` for a swap command.
    pub fn command_string(&self) -> (s: String)
        ensures
            s@ == spec_command(*self),
    {
        match self {
            NavigationCommand::Focus(id) => {
                let mut s = String::new();
                proof {
                    reveal_strlit("[con_id=");
                }
                s.append("[con_id=");
                let d = decimal_i64(*id);
                s.append(d.as_str());
                proof {
                    reveal_strlit("] focus");
                }
                s.append("] focus");
                proof {
                    assert(s@ =~= spec_focus_command(*id as int));
                }
                s
            },
            NavigationCommand::Swap(id) => {
                let mut s = String::new();
                proof {
                    reveal_strlit("swap container with con_id ");
                }
                s.append("swap container with con_id ");
                let d = decimal_i64(*id);
                s.append(d.as_str());
                proof {
                    assert(s@ =~= spec_swap_command(*id as int));
                }
                s
            },
        }
    }
}

} // verus!

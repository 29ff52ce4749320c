//! The name of the file that holds the results of an ensemble.

use super::{Config, SimulationParams};
use vstd::prelude::*;
use vstd::string::StringExecFns;

verus! {

/// The character that writes the digit `d`.
pub open spec fn digit_char(d: nat) -> char {
    (0x30 + d) as u8 as char
}

/// The digits that write `n` in base ten, without leading zeros.
pub open spec fn decimal(n: nat) -> Seq<char>
    decreases n,
{
    if n < 10 {
        seq![digit_char(n)]
    } else {
        decimal(n / 10).push(digit_char(n % 10))
    }
}

/// The file name of the results of an ensemble: the length, the number of
/// neighbours, the seed count, the boundary as `1` for periodic and `0` for
/// bounded, and the seed offset.
pub open spec fn file_name_of(cfg: Config) -> Seq<char> {
    "L"@ + decimal(cfg.length) + "_k"@ + decimal(cfg.k_neighbour) + "_seeds"@ + decimal(
        cfg.seed_count,
    ) + "_pbc"@ + decimal(
        if cfg.periodic_boundary {
            1
        } else {
            0
        },
    ) + "_iseed"@ + decimal(cfg.base_seed) + ".csv"@
}

/// The text of one digit.
fn digit_str(d: u32) -> (text: &'static str)
    requires
        d < 10,
    ensures
        text@ == seq![digit_char(d as nat)],
{
    proof {
        reveal_strlit("0");
        reveal_strlit("1");
        reveal_strlit("2");
        reveal_strlit("3");
        reveal_strlit("4");
        reveal_strlit("5");
        reveal_strlit("6");
        reveal_strlit("7");
        reveal_strlit("8");
        reveal_strlit("9");
    }
    let text: &'static str = if d == 0 {
        "0"
    } else if d == 1 {
        "1"
    } else if d == 2 {
        "2"
    } else if d == 3 {
        "3"
    } else if d == 4 {
        "4"
    } else if d == 5 {
        "5"
    } else if d == 6 {
        "6"
    } else if d == 7 {
        "7"
    } else if d == 8 {
        "8"
    } else {
        "9"
    };
    assert(text@ =~= seq![digit_char(d as nat)]);
    text
}

/// Appends `n` in base ten to `out`.
pub fn push_decimal(out: &mut String, n: u32)
    ensures
        final(out)@ == old(out)@ + decimal(n as nat),
    decreases n,
{
    if n >= 10 {
        push_decimal(out, n / 10);
    }
    out.append(digit_str(n % 10));
    proof {
        if n >= 10 {
            assert(old(out)@ + decimal((n / 10) as nat) + seq![digit_char((n % 10) as nat)]
                =~= old(out)@ + decimal(n as nat));
        }
    }
}

/// The name of the file that the results of the ensemble are written to.
pub fn file_name(params: &SimulationParams) -> (name: String)
    ensures
        name@ == file_name_of(params@),
{
    let mut name: String = String::new();
    name.append("L");
    push_decimal(&mut name, params.length());
    name.append("_k");
    push_decimal(&mut name, params.k_neighbour());
    name.append("_seeds");
    push_decimal(&mut name, params.max_seed());
    name.append("_pbc");
    push_decimal(
        &mut name,
        if params.periodic_bc() {
            1
        } else {
            0
        },
    );
    name.append("_iseed");
    push_decimal(&mut name, params.init_seed());
    name.append(".csv");
    proof {
        assert(name@ =~= file_name_of(params@));
    }
    name
}

} // verus!

//! Parsing of unit-suffixed usage strings.
//!
//! CPU usage arrives in nanocores (`n`), microcores (`u`) or millicores
//! (`m`); memory usage in kibibytes (`Ki`), mebibytes (`Mi`) or gibibytes
//! (`Gi`). Both parsers return the canonical value — millicores for CPU,
//! mebibytes for memory — as an exact [`Quantity`]. A bare numeric string
//! is returned unchanged: it is treated as already being in the canonical
//! unit.

use vstd::prelude::*;
use vstd::string::*;

use crate::quantity::{
    Quantity, fits, frac_len, is_plain_number, lemma_pow10_mono, lemma_pow10_values, mantissa_of,
    parse_number,
};

verus! {

/// `5^10`: dividing by `1024 == 2^10` multiplies the mantissa by `5^10`
/// and raises the scale by ten, since `1/2^10 == 5^10/10^10`.
pub const FIVE_POW_10: u128 = 9_765_625;

/// The exact outcome of CPU parsing, as (mantissa, scale): `None` is a
/// parse failure. A plain number is returned unchanged; otherwise the last
/// character is a unit suffix over a plain number, where `n` scales by
/// `10^-6`, `u` by `10^-3` and `m` by one, case-insensitively; any other
/// suffix is accepted (as zero) only on a zero-valued prefix.
pub open spec fn cpu_quantity(s: Seq<char>) -> Option<(nat, nat)> {
    if is_plain_number(s) && fits(s) {
        Some((mantissa_of(s), frac_len(s)))
    } else if s.len() > 0 && is_plain_number(s.drop_last()) && fits(s.drop_last()) {
        let p = s.drop_last();
        let c = s.last();
        if c == 'n' || c == 'N' {
            Some((mantissa_of(p), frac_len(p) + 6))
        } else if c == 'u' || c == 'U' {
            Some((mantissa_of(p), frac_len(p) + 3))
        } else if c == 'm' || c == 'M' {
            Some((mantissa_of(p), frac_len(p)))
        } else if mantissa_of(p) == 0 {
            Some((0, 0))
        } else {
            None
        }
    } else {
        None
    }
}

/// The message CPU parsing fails with, matching the failure case.
pub open spec fn cpu_error(s: Seq<char>) -> Seq<char> {
    if s.len() == 0 {
        "Empty string cannot be parsed as CPU value"@
    } else if !(is_plain_number(s.drop_last()) && fits(s.drop_last())) {
        "Unable to parse CPU value: "@ + s
    } else {
        "Unknown CPU unit: "@ + s
    }
}

/// The exact outcome of memory parsing, as (mantissa, scale). A plain
/// number is returned unchanged; otherwise the last two characters are the
/// unit over a plain number: `Ki` divides by 1024, `Mi` keeps the value,
/// `Gi` multiplies by 1024.
pub open spec fn memory_quantity(s: Seq<char>) -> Option<(nat, nat)> {
    if is_plain_number(s) && fits(s) {
        Some((mantissa_of(s), frac_len(s)))
    } else if s.len() >= 3 && is_plain_number(s.take(s.len() - 2)) && fits(s.take(s.len() - 2)) {
        let p = s.take(s.len() - 2);
        let c1 = s[s.len() - 2];
        let c2 = s[s.len() - 1];
        if c1 == 'K' && c2 == 'i' {
            Some((mantissa_of(p) * (FIVE_POW_10 as nat), frac_len(p) + 10))
        } else if c1 == 'M' && c2 == 'i' {
            Some((mantissa_of(p), frac_len(p)))
        } else if c1 == 'G' && c2 == 'i' {
            Some((mantissa_of(p) * 1024, frac_len(p)))
        } else {
            None
        }
    } else {
        None
    }
}

/// The message memory parsing fails with, matching the failure case.
pub open spec fn memory_error(s: Seq<char>) -> Seq<char> {
    if s.len() == 0 {
        "Empty string cannot be parsed as memory value"@
    } else if s.len() < 3 || !(is_plain_number(s.take(s.len() - 2)) && fits(
        s.take(s.len() - 2),
    )) {
        "Unable to parse memory value: "@ + s
    } else {
        "Unknown memory unit: "@ + s
    }
}

/// Parses a CPU usage string into millicores. Succeeds exactly on the
/// inputs `cpu_quantity` accepts, with that exact value; fails with the
/// message `cpu_error` gives.
pub fn parse_cpu_value(s: &str) -> (r: Result<Quantity, String>)
    ensures
        match r {
            Ok(q) => cpu_quantity(s@) == Some((q.mantissa as nat, q.scale as nat)) && q.wf(),
            Err(e) => cpu_quantity(s@) is None && e@ == cpu_error(s@),
        },
{
    if let Some(q) = parse_number(s) {
        proof {
            q.lemma_parsed_wf();
        }
        return Ok(q);
    }
    let n = s.unicode_len();
    if n == 0 {
        let msg = String::from_str("Empty string cannot be parsed as CPU value");
        return Err(msg);
    }
    let prefix = s.substring_char(0, n - 1);
    proof {
        assert(prefix@ =~= s@.drop_last());
    }
    let parsed = parse_number(prefix);
    if parsed.is_none() {
        let mut msg = String::from_str("Unable to parse CPU value: ");
        msg.append(s);
        return Err(msg);
    }
    let q = parsed.unwrap();
    proof {
        lemma_pow10_mono(30, 37);
    }
    let c = s.get_char(n - 1);
    if c == 'n' || c == 'N' {
        Ok(Quantity { mantissa: q.mantissa, scale: q.scale + 6 })
    } else if c == 'u' || c == 'U' {
        Ok(Quantity { mantissa: q.mantissa, scale: q.scale + 3 })
    } else if c == 'm' || c == 'M' {
        Ok(Quantity { mantissa: q.mantissa, scale: q.scale })
    } else if q.mantissa == 0 {
        Ok(Quantity { mantissa: 0, scale: 0 })
    } else {
        let mut msg = String::from_str("Unknown CPU unit: ");
        msg.append(s);
        Err(msg)
    }
}

/// Parses a memory usage string into mebibytes. Succeeds exactly on the
/// inputs `memory_quantity` accepts, with that exact value; fails with the
/// message `memory_error` gives.
pub fn parse_memory_value(s: &str) -> (r: Result<Quantity, String>)
    ensures
        match r {
            Ok(q) => memory_quantity(s@) == Some((q.mantissa as nat, q.scale as nat)) && q.wf(),
            Err(e) => memory_quantity(s@) is None && e@ == memory_error(s@),
        },
{
    if let Some(q) = parse_number(s) {
        proof {
            q.lemma_parsed_wf();
        }
        return Ok(q);
    }
    let n = s.unicode_len();
    if n == 0 {
        let msg = String::from_str("Empty string cannot be parsed as memory value");
        return Err(msg);
    }
    if n < 3 {
        let mut msg = String::from_str("Unable to parse memory value: ");
        msg.append(s);
        return Err(msg);
    }
    let prefix = s.substring_char(0, n - 2);
    proof {
        assert(prefix@ =~= s@.take(s@.len() - 2));
    }
    let parsed = parse_number(prefix);
    if parsed.is_none() {
        let mut msg = String::from_str("Unable to parse memory value: ");
        msg.append(s);
        return Err(msg);
    }
    let q = parsed.unwrap();
    proof {
        lemma_pow10_values();
        lemma_pow10_mono(30, 37);
    }
    let c1 = s.get_char(n - 2);
    let c2 = s.get_char(n - 1);
    if c1 == 'K' && c2 == 'i' {
        Ok(Quantity { mantissa: q.mantissa * FIVE_POW_10, scale: q.scale + 10 })
    } else if c1 == 'M' && c2 == 'i' {
        Ok(Quantity { mantissa: q.mantissa, scale: q.scale })
    } else if c1 == 'G' && c2 == 'i' {
        Ok(Quantity { mantissa: q.mantissa * 1024, scale: q.scale })
    } else {
        let mut msg = String::from_str("Unknown memory unit: ");
        msg.append(s);
        Err(msg)
    }
}

/// A bare non-negative numeric string parses to exactly the decimal value
/// it spells, for both parsers: no suffix means no rescaling.
pub proof fn lemma_plain_number_identity(s: Seq<char>)
    requires
        is_plain_number(s),
        fits(s),
    ensures
        cpu_quantity(s) == Some((mantissa_of(s), frac_len(s))),
        memory_quantity(s) == Some((mantissa_of(s), frac_len(s))),
{
}

} // verus!

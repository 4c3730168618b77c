use vstd::prelude::*;
use rand::Rng;
use crate::ini::Config;
use crate::location::{Location, prefix, region_seq, all_seq, regions, lemma_all_complete};

verus! {

/// The decimal digit `d`, for `d` below ten.
pub open spec fn digit(d: int) -> char {
    if d == 0 {
        '0'
    } else if d == 1 {
        '1'
    } else if d == 2 {
        '2'
    } else if d == 3 {
        '3'
    } else if d == 4 {
        '4'
    } else if d == 5 {
        '5'
    } else if d == 6 {
        '6'
    } else if d == 7 {
        '7'
    } else if d == 8 {
        '8'
    } else {
        '9'
    }
}

/// `n` (below a thousand) written with exactly three digits, zeros in front.
pub open spec fn three_digits(n: int) -> Seq<char> {
    seq![digit(n / 100), digit((n / 10) % 10), digit(n % 10)]
}

/// The suffix of a number: "666" in evil mode, else the three digits of `n`.
pub open spec fn suffix(evil: bool, n: int) -> Seq<char> {
    if evil {
        seq!['6', '6', '6']
    } else {
        three_digits(n)
    }
}

/// The location a number is made for: `Random` becomes the region at `pick`.
pub open spec fn effective(l: Location, pick: int) -> Location {
    if l is Random {
        region_seq()[pick]
    } else {
        l
    }
}

/// The number made for `c` when `pick` is the region drawn and `n` the suffix drawn.
pub open spec fn number(c: Config, pick: int, n: int) -> Seq<char> {
    prefix(effective(c.location, pick)) + suffix(c.evil, n)
}

/// In evil mode every number ends in "666".
pub proof fn lemma_evil_ends_in_666(c: Config, pick: int, n: int)
    requires
        c.evil,
    ensures
        number(c, pick, n).len() >= 3,
        number(c, pick, n).subrange(number(c, pick, n).len() - 3, number(c, pick, n).len() as int)
            == seq!['6', '6', '6'],
{
    let p = prefix(effective(c.location, pick));
    assert(number(c, pick, n).subrange(p.len() as int, (p.len() + 3) as int) =~= seq!['6', '6', '6']);
}

/// Out of evil mode a number ends in the three digits of the drawn `n`,
/// and distinct draws give distinct endings, so that every ending from
/// 000 to 999 comes from exactly one draw.
pub proof fn lemma_plain_suffix(c: Config, pick: int, n: int, m: int)
    requires
        !c.evil,
        0 <= n < 1000,
        0 <= m < 1000,
    ensures
        number(c, pick, n).len() >= 3,
        number(c, pick, n).subrange(number(c, pick, n).len() - 3, number(c, pick, n).len() as int)
            == three_digits(n),
        forall|i: int| 0 <= i < 3 ==> '0' <= #[trigger] three_digits(n)[i] <= '9',
        three_digits(n) == three_digits(m) ==> n == m,
{
    let p = prefix(effective(c.location, pick));
    assert(number(c, pick, n).subrange(p.len() as int, (p.len() + 3) as int) =~= three_digits(n));
    if three_digits(n) == three_digits(m) {
        assert(three_digits(n)[0] == three_digits(m)[0]);
        assert(three_digits(n)[1] == three_digits(m)[1]);
        assert(three_digits(n)[2] == three_digits(m)[2]);
        assert(n / 100 == m / 100);
        assert((n / 10) % 10 == (m / 10) % 10);
        assert(n % 10 == m % 10);
    }
}

/// With `Random`, whatever is drawn, the number is made for a region and never
/// for `Random`; each region is the one drawn for exactly one pick, so a
/// uniform pick reaches every region equally often.
pub proof fn lemma_random_region(c: Config, pick: int, n: int, l: Location)
    requires
        c.location is Random,
        0 <= pick < region_seq().len(),
        !(l is Random),
    ensures
        !(effective(c.location, pick) is Random),
        number(c, pick, n) == prefix(effective(c.location, pick)) + suffix(c.evil, n),
        exists|k: int| 0 <= k < region_seq().len() && region_seq()[k] == l,
        forall|j: int, k: int|
            0 <= j < region_seq().len() && 0 <= k < region_seq().len() && region_seq()[j]
                == region_seq()[k] ==> j == k,
{
    lemma_all_complete(effective(c.location, pick));
    lemma_all_complete(l);
    assert(region_seq().contains(region_seq()[pick]));
    assert forall|j: int, k: int|
        0 <= j < region_seq().len() && 0 <= k < region_seq().len() && region_seq()[j]
            == region_seq()[k] implies j == k by {
        assert(all_seq()[j] == region_seq()[j]);
        assert(all_seq()[k] == region_seq()[k]);
    }
}

/// The one-character string of the digit `d`.
fn digit_str(d: u32) -> (r: &'static str)
    requires
        d < 10,
    ensures
        r@ == seq![digit(d as int)],
{
    proof {
        reveal_strlit("0");
        reveal_strlit("1");
        reveal_strlit("2");
        reveal_strlit("3");
        reveal_strlit("4");
        reveal_strlit("5");
        reveal_strlit("6");
        reveal_strlit("7");
        reveal_strlit("8");
        reveal_strlit("9");
    }
    if d == 0 {
        "0"
    } else if d == 1 {
        "1"
    } else if d == 2 {
        "2"
    } else if d == 3 {
        "3"
    } else if d == 4 {
        "4"
    } else if d == 5 {
        "5"
    } else if d == 6 {
        "6"
    } else if d == 7 {
        "7"
    } else if d == 8 {
        "8"
    } else {
        "9"
    }
}

/// Writes `n` with exactly three digits, zeros in front.
pub fn pad3(n: u32) -> (r: String)
    requires
        n < 1000,
    ensures
        r@ == three_digits(n as int),
{
    let r = String::from_str(digit_str(n / 100));
    let r = r.concat(digit_str((n / 10) % 10));
    let r = r.concat(digit_str(n % 10));
    assert(r@ =~= three_digits(n as int));
    r
}

/// The number for `conf`, given the region drawn (`pick`, an index into the
/// regions, used only for `Random`) and the suffix drawn (`n`, used only
/// when evil mode is off).
pub fn number_for(conf: &Config, pick: usize, n: u32) -> (r: String)
    requires
        pick < region_seq().len(),
        n < 1000,
    ensures
        r@ == number(*conf, pick as int, n as int),
{
    let place = if conf.location == Location::Random {
        let list = regions();
        list[pick]
    } else {
        conf.location
    };
    proof {
        lemma_all_complete(place);
    }
    let pref = place.to_prefix();
    let suf = if conf.evil {
        proof {
            reveal_strlit("666");
        }
        String::from_str("666")
    } else {
        pad3(n)
    };
    let r = pref.concat(suf.as_str());
    assert(r@ =~= number(*conf, pick as int, n as int));
    r
}

/// Relies on rand's `Rng::gen_range` over `thread_rng()`: a value drawn from
/// `0..n`; the call panics on an empty range.
#[verifier::external_body]
fn draw_below(n: usize) -> (r: usize)
    requires
        n > 0,
    ensures
        r < n,
{
    rand::thread_rng().gen_range(0..n)
}

/// A fresh number for `conf`: a region drawn uniformly when the location is
/// `Random`, and a suffix drawn uniformly from 000 to 999 unless evil mode is on.
pub fn display(conf: &Config) -> (r: String)
    ensures
        exists|pick: int, n: int|
            0 <= pick < region_seq().len() && 0 <= n < 1000 && r@ == number(*conf, pick, n),
{
    let pick: usize = if conf.location == Location::Random {
        draw_below(regions().len())
    } else {
        0
    };
    let n: usize = if conf.evil {
        0
    } else {
        draw_below(1000)
    };
    number_for(conf, pick, n as u32)
}

} // verus!

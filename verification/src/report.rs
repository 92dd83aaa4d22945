//! Benchmark report formatting.
//!
//! Helpers that turn measured timings into human-readable text: decimal
//! rendering of nanosecond counts with microsecond and millisecond
//! equivalents rounded half-to-even to two decimal places, exact rounded
//! averages, and the Markdown summary of a bus delay benchmark. The
//! measurements themselves come from outside; everything here is pure
//! formatting and arithmetic over the values handed in.

use vstd::prelude::*;
use vstd::string::StringExecFns;

verus! {

/// The decimal digit character for `d` (`d < 10`).
pub open spec fn dec_digit(d: nat) -> char {
    if d == 0 {
        '0'
    } else if d == 1 {
        '1'
    } else if d == 2 {
        '2'
    } else if d == 3 {
        '3'
    } else if d == 4 {
        '4'
    } else if d == 5 {
        '5'
    } else if d == 6 {
        '6'
    } else if d == 7 {
        '7'
    } else if d == 8 {
        '8'
    } else {
        '9'
    }
}

/// The decimal rendering of `n`, most significant digit first, with no
/// leading zero except for zero itself.
pub open spec fn dec_of(n: nat) -> Seq<char>
    decreases n,
{
    if n < 10 {
        seq![dec_digit(n)]
    } else {
        dec_of(n / 10).push(dec_digit(n % 10))
    }
}

/// The quotient `a / d` rounded to the nearest integer, ties to the even
/// neighbour.
pub open spec fn round_half_even(a: nat, d: nat) -> nat
    recommends
        d > 0,
{
    let q = a / d;
    let r = a % d;
    if 2 * r < d {
        q
    } else if 2 * r > d {
        q + 1
    } else if q % 2 == 0 {
        q
    } else {
        q + 1
    }
}

/// Hundredths rendered with two decimal places: `123` becomes `1.23`.
pub open spec fn spec_two_dec(h: nat) -> Seq<char> {
    dec_of(h / 100) + "."@ + seq![dec_digit((h / 10) % 10), dec_digit(h % 10)]
}

/// A nanosecond count with its microsecond and millisecond equivalents,
/// each rounded half-to-even to two decimal places.
pub open spec fn spec_display_ns(ns: nat) -> Seq<char> {
    dec_of(ns) + "ns ("@ + spec_two_dec(round_half_even(ns, 10)) + "μs, "@ + spec_two_dec(
        round_half_even(ns, 10000),
    ) + "ms)"@
}

/// The sum of a sequence of counts.
pub open spec fn spec_sum(s: Seq<u128>) -> nat
    decreases s.len(),
{
    if s.len() == 0 {
        0
    } else {
        (s[0] + spec_sum(s.skip(1))) as nat
    }
}

fn digit_str(d: u128) -> (r: &'static str)
    requires
        d < 10,
    ensures
        r@ == seq![dec_digit(d as nat)],
{
    if d == 0 {
        proof {
            reveal_strlit("0");
        }
        "0"
    } else if d == 1 {
        proof {
            reveal_strlit("1");
        }
        "1"
    } else if d == 2 {
        proof {
            reveal_strlit("2");
        }
        "2"
    } else if d == 3 {
        proof {
            reveal_strlit("3");
        }
        "3"
    } else if d == 4 {
        proof {
            reveal_strlit("4");
        }
        "4"
    } else if d == 5 {
        proof {
            reveal_strlit("5");
        }
        "5"
    } else if d == 6 {
        proof {
            reveal_strlit("6");
        }
        "6"
    } else if d == 7 {
        proof {
            reveal_strlit("7");
        }
        "7"
    } else if d == 8 {
        proof {
            reveal_strlit("8");
        }
        "8"
    } else {
        proof {
            reveal_strlit("9");
        }
        "9"
    }
}

fn dec_string(n: u128) -> (r: String)
    ensures
        r@ == dec_of(n as nat),
    decreases n,
{
    if n < 10 {
        let r = digit_str(n).to_owned();
        proof {
            assert(r@ =~= dec_of(n as nat));
        }
        r
    } else {
        proof {
            assert(n / 10 < n) by (nonlinear_arith)
                requires
                    n >= 10,
            ;
        }
        let mut r = dec_string(n / 10);
        r.append(digit_str(n % 10));
        proof {
            assert(r@ =~= dec_of(n as nat));
        }
        r
    }
}

/// The quotient `a / d` rounded half-to-even.
fn half_even_div(a: u128, d: u128) -> (r: u128)
    requires
        d > 0,
    ensures
        r == round_half_even(a as nat, d as nat),
{
    let q = a / d;
    let r = a % d;
    let rest = d - r;
    if r < rest {
        q
    } else {
        proof {
            assert(q < 0xffff_ffff_ffff_ffff_ffff_ffff_ffff_ffff_u128) by (nonlinear_arith)
                requires
                    q == a as nat / d as nat,
                    r == a as nat % d as nat,
                    2 * r >= d,
                    d > 0,
                    r < d,
                    a <= 0xffff_ffff_ffff_ffff_ffff_ffff_ffff_ffff_u128,
            ;
        }
        if r > rest {
            q + 1
        } else if q % 2 == 0 {
            q
        } else {
            q + 1
        }
    }
}

fn two_dec(h: u128) -> (r: String)
    ensures
        r@ == spec_two_dec(h as nat),
{
    let mut r = dec_string(h / 100);
    r.append(".");
    r.append(digit_str((h / 10) % 10));
    r.append(digit_str(h % 10));
    proof {
        assert(r@ =~= spec_two_dec(h as nat));
    }
    r
}

/// Renders a nanosecond count with its microsecond and millisecond
/// equivalents, the latter two rounded half-to-even to two decimal places:
/// `1234` becomes `1234ns (1.23μs, 0.12ms)`.
pub fn display_ns(raw_ns: u128) -> (r: String)
    ensures
        r@ == spec_display_ns(raw_ns as nat),
{
    let mut r = dec_string(raw_ns);
    r.append("ns (");
    let us = two_dec(half_even_div(raw_ns, 10));
    r.append(us.as_str());
    r.append("μs, ");
    let ms = two_dec(half_even_div(raw_ns, 10000));
    r.append(ms.as_str());
    r.append("ms)");
    proof {
        assert(r@ =~= spec_display_ns(raw_ns as nat));
    }
    r
}

/// The average of the measurements, rounded half-to-even to the nearest
/// whole count. The list must not be empty and its exact sum must be
/// representable.
pub fn average_u128(list: Vec<u128>) -> (r: u128)
    requires
        list@.len() > 0,
        spec_sum(list@) <= 0xffff_ffff_ffff_ffff_ffff_ffff_ffff_ffff_u128,
    ensures
        r == round_half_even(spec_sum(list@), list@.len() as nat),
{
    let mut acc: u128 = 0;
    let mut i: usize = 0;
    let n: usize = list.len();
    proof {
        assert(list@.skip(0) =~= list@);
    }
    while i < n
        invariant
            n == list@.len(),
            i <= n,
            acc + spec_sum(list@.skip(i as int)) == spec_sum(list@),
            spec_sum(list@) <= 0xffff_ffff_ffff_ffff_ffff_ffff_ffff_ffff_u128,
        decreases n - i,
    {
        proof {
            assert(list@.skip(i as int).skip(1) =~= list@.skip(i + 1));
            assert(spec_sum(list@.skip(i as int)) == list@[i as int] + spec_sum(
                list@.skip(i + 1),
            ));
        }
        acc = acc + list[i];
        i = i + 1;
    }
    proof {
        assert(list@.skip(n as int) =~= Seq::<u128>::empty());
        assert(spec_sum(Seq::<u128>::empty()) == 0);
    }
    half_even_div(acc, n as u128)
}

/// One measured bus run: how many receivers were subscribed, the average
/// delivery delay observed, and the address of the rendered chart.
pub struct BusSample {
    /// Number of subscribed receivers in this run.
    pub receivers: usize,
    /// Average delivery delay in nanoseconds.
    pub average_ns: u128,
    /// Address of the chart rendered for this run.
    pub image_url: String,
}

/// The Markdown section for one measured bus run.
pub open spec fn spec_bus_section(s: BusSample) -> Seq<char> {
    "\n### "@ + dec_of(s.receivers as nat) + " Cores / Receivers\nAverage time consumption: "@
        + spec_display_ns(s.average_ns as nat) + ".\n\n![Benchmark]("@ + s.image_url@ + ")"@
}

/// The Markdown sections for the measured bus runs, in order.
pub open spec fn spec_bus_sections(samples: Seq<BusSample>) -> Seq<char>
    decreases samples.len(),
{
    if samples.len() == 0 {
        Seq::<char>::empty()
    } else {
        spec_bus_section(samples[0]) + spec_bus_sections(samples.skip(1))
    }
}

/// The header of the bus benchmark report.
pub open spec fn spec_bus_header() -> Seq<char> {
    "## InstantBus\nThis benchmark test will test the reception delay of different numbers of receivers (core).\n"@
}

/// The full Markdown report of the bus delay benchmark: a header followed
/// by one section per measured run, in the order the runs were handed in.
pub open spec fn spec_instant_bus_report(samples: Seq<BusSample>) -> Seq<char> {
    spec_bus_header() + spec_bus_sections(samples)
}

/// Builds the Markdown summary of the bus delay benchmark from the measured
/// runs. The measuring itself — subscribing receivers on live threads and
/// timing deliveries — happens outside; this renders its results.
pub fn instant_bus_test(samples: &Vec<BusSample>) -> (r: String)
    ensures
        r@ == spec_instant_bus_report(samples@),
{
    let mut r =
        "## InstantBus\nThis benchmark test will test the reception delay of different numbers of receivers (core).\n".to_owned();
    let mut i: usize = 0;
    let n: usize = samples.len();
    proof {
        assert(samples@.take(0) =~= Seq::<BusSample>::empty());
        assert(r@ =~= spec_bus_header() + spec_bus_sections(samples@.take(0)));
    }
    while i < n
        invariant
            n == samples@.len(),
            i <= n,
            r@ == spec_bus_header() + spec_bus_sections(samples@.take(i as int)),
        decreases n - i,
    {
        let ghost prev = r@;
        r.append("\n### ");
        let receivers = dec_string(samples[i].receivers as u128);
        r.append(receivers.as_str());
        r.append(" Cores / Receivers\nAverage time consumption: ");
        let shown = display_ns(samples[i].average_ns);
        r.append(shown.as_str());
        r.append(".\n\n![Benchmark](");
        r.append(samples[i].image_url.as_str());
        r.append(")");
        proof {
            assert(r@ =~= prev + spec_bus_section(samples@[i as int]));
            lemma_bus_sections_step(samples@, i as int);
            assert(r@ =~= spec_bus_header() + spec_bus_sections(samples@.take(i + 1)));
        }
        i = i + 1;
    }
    proof {
        assert(samples@.take(n as int) =~= samples@);
    }
    r
}

/// Extending the rendered runs by one appends exactly that run's section.
proof fn lemma_bus_sections_step(samples: Seq<BusSample>, i: int)
    requires
        0 <= i < samples.len(),
    ensures
        spec_bus_sections(samples.take(i + 1)) == spec_bus_sections(samples.take(i))
            + spec_bus_section(samples[i]),
    decreases i,
{
    if i == 0 {
        assert(samples.take(1).skip(1) =~= Seq::<BusSample>::empty());
        assert(samples.take(0) =~= Seq::<BusSample>::empty());
        assert(spec_bus_sections(samples.take(1)) == spec_bus_section(samples[0])
            + Seq::<char>::empty());
        assert(spec_bus_sections(samples.take(1)) =~= spec_bus_sections(samples.take(0))
            + spec_bus_section(samples[0]));
    } else {
        lemma_bus_sections_step(samples.skip(1), i - 1);
        assert(samples.take(i + 1).skip(1) =~= samples.skip(1).take(i));
        assert(samples.take(i).skip(1) =~= samples.skip(1).take(i - 1));
        assert(samples.skip(1)[i - 1] == samples[i]);
        assert(spec_bus_sections(samples.take(i + 1)) == spec_bus_section(samples[0])
            + spec_bus_sections(samples.skip(1).take(i)));
        assert(spec_bus_sections(samples.take(i)) == spec_bus_section(samples[0])
            + spec_bus_sections(samples.skip(1).take(i - 1)));
        assert(spec_bus_sections(samples.take(i + 1)) =~= spec_bus_sections(samples.take(i))
            + spec_bus_section(samples[i]));
    }
}

} // verus!

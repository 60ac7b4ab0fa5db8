//! Helpers of the Bluetooth scanner: a default constructor, timing
//! benchmarks, address formatting and the filter for Apple advertisements.

use vstd::prelude::*;

verus! {

/// The value that `T::default()` produces.
pub fn default<T: Default>() -> (r: T)
    ensures
        call_ensures(T::default, (), r),
{
    T::default()
}

/// Nanoseconds in one second.
pub const NANOS_PER_SEC: u32 = 1_000_000_000;

/// The longest span an `Elapsed` can hold, in nanoseconds: `u64::MAX` whole
/// seconds and `NANOS_PER_SEC - 1` nanoseconds.
pub open spec fn max_elapsed_nanos() -> nat {
    (u64::MAX as nat) * 1_000_000_000 + 999_999_999
}

/// A span of time with nanosecond precision, kept as whole seconds and the
/// nanoseconds below one second.
#[derive(Clone, Copy, Debug, PartialEq, Eq, Structural)]
pub struct Elapsed {
    secs: u64,
    nanos: u32,
}

impl View for Elapsed {
    type V = nat;

    /// The span in nanoseconds.
    closed spec fn view(&self) -> nat {
        (self.secs as nat) * 1_000_000_000 + self.nanos as nat
    }
}

impl Elapsed {
    /// The sub-second part is always below one second.
    pub closed spec fn wf(self) -> bool {
        self.nanos < NANOS_PER_SEC
    }

    /// A span is its whole seconds plus its sub-second nanoseconds, and it is
    /// well formed exactly when the latter stay below one second.
    pub proof fn lemma_parts(self)
        ensures
            self@ == self.spec_secs() as nat * 1_000_000_000 + self.spec_subsec_nanos() as nat,
            self.wf() <==> self.spec_subsec_nanos() < NANOS_PER_SEC,
    {
    }

    /// A span of `secs` seconds and `nanos` nanoseconds.
    pub fn new(secs: u64, nanos: u32) -> (e: Elapsed)
        requires
            nanos < NANOS_PER_SEC,
        ensures
            e.wf(),
            e@ == secs as nat * 1_000_000_000 + nanos as nat,
            e.secs() == secs,
            e.subsec_nanos() == nanos,
    {
        Elapsed { secs, nanos }
    }

    /// The empty span.
    pub fn zero() -> (e: Elapsed)
        ensures
            e.wf(),
            e@ == 0,
    {
        Elapsed { secs: 0, nanos: 0 }
    }

    /// Whole seconds of the span.
    #[verifier::when_used_as_spec(spec_secs)]
    pub fn secs(&self) -> (s: u64)
        ensures
            s == self.spec_secs(),
    {
        self.secs
    }

    pub closed spec fn spec_secs(&self) -> u64 {
        self.secs
    }

    /// Nanoseconds below one second.
    #[verifier::when_used_as_spec(spec_subsec_nanos)]
    pub fn subsec_nanos(&self) -> (n: u32)
        ensures
            n == self.spec_subsec_nanos(),
    {
        self.nanos
    }

    pub closed spec fn spec_subsec_nanos(&self) -> u32 {
        self.nanos
    }

    /// The sum of two spans, or `None` when it does not fit.
    pub fn checked_add(self, other: Elapsed) -> (r: Option<Elapsed>)
        requires
            self.wf(),
            other.wf(),
        ensures
            r is Some <==> self@ + other@ <= max_elapsed_nanos(),
            r matches Some(sum) ==> sum.wf() && sum@ == self@ + other@,
    {
        let nanos = self.nanos + other.nanos;
        if self.secs > u64::MAX - other.secs {
            return None;
        }
        let secs = self.secs + other.secs;
        if nanos >= NANOS_PER_SEC {
            if secs == u64::MAX {
                return None;
            }
            Some(Elapsed { secs: secs + 1, nanos: nanos - NANOS_PER_SEC })
        } else {
            Some(Elapsed { secs, nanos })
        }
    }
}

/// Accumulated timings of one measured code section.
pub struct Benchmark {
    name: String,
    total: Elapsed,
    sample_count: usize,
}

impl Benchmark {
    pub closed spec fn spec_name(&self) -> Seq<char> {
        self.name@
    }

    pub closed spec fn spec_total(&self) -> nat {
        self.total@
    }

    pub closed spec fn spec_sample_count(&self) -> nat {
        self.sample_count as nat
    }

    /// The accumulated total is a well-formed span.
    pub closed spec fn wf(&self) -> bool {
        self.total.wf()
    }

    /// An empty benchmark named `name`.
    pub fn new(name: &str) -> (b: Benchmark)
        ensures
            b.wf(),
            b.spec_name() == name@,
            b.spec_total() == 0,
            b.spec_sample_count() == 0,
    {
        let name = name.to_owned();
        let total = Elapsed::zero();
        let sample_count = default::<usize>();
        Benchmark { name, total, sample_count }
    }

    /// Records one sample of `duration`.
    pub fn add(&mut self, duration: Elapsed)
        requires
            old(self).wf(),
            duration.wf(),
            old(self).spec_total() + duration@ <= max_elapsed_nanos(),
            old(self).spec_sample_count() < usize::MAX,
        ensures
            final(self).wf(),
            final(self).spec_name() == old(self).spec_name(),
            final(self).spec_total() == old(self).spec_total() + duration@,
            final(self).spec_sample_count() == old(self).spec_sample_count() + 1,
    {
        self.total = match self.total.checked_add(duration) {
            Some(sum) => sum,
            None => self.total,
        };
        self.sample_count = self.sample_count + 1;
    }

    /// The name of the measured section.
    pub fn name(&self) -> (n: &str)
        ensures
            n@ == self.spec_name(),
    {
        self.name.as_str()
    }

    /// The accumulated time of all samples.
    pub fn total(&self) -> (t: Elapsed)
        requires
            self.wf(),
        ensures
            t.wf(),
            t@ == self.spec_total(),
    {
        self.total
    }

    /// The number of samples recorded.
    pub fn sample_count(&self) -> (c: usize)
        ensures
            c == self.spec_sample_count(),
    {
        self.sample_count
    }
}


/// The total length, in nanoseconds, of `spans`.
pub open spec fn elapsed_sum(spans: Seq<Elapsed>) -> nat
    decreases spans.len(),
{
    if spans.len() == 0 {
        0
    } else {
        elapsed_sum(spans.drop_last()) + spans.last()@
    }
}

/// A benchmark made by `new` and then given the samples `samples` one by one
/// with `add` (`states[i + 1]` is `states[i]` after adding `samples[i]`)
/// holds the sum of all samples as its total, counts them, and keeps its
/// name.
pub proof fn lemma_benchmark_accumulates(states: Seq<Benchmark>, samples: Seq<Elapsed>)
    requires
        states.len() == samples.len() + 1,
        states[0].spec_total() == 0,
        states[0].spec_sample_count() == 0,
        forall|i: int|
            0 <= i < samples.len() ==> {
                &&& #[trigger] states[i + 1].spec_name() == states[i].spec_name()
                &&& states[i + 1].spec_total() == states[i].spec_total() + samples[i]@
                &&& states[i + 1].spec_sample_count() == states[i].spec_sample_count() + 1
            },
    ensures
        states.last().spec_total() == elapsed_sum(samples),
        states.last().spec_sample_count() == samples.len(),
        states.last().spec_name() == states[0].spec_name(),
    decreases samples.len(),
{
    if samples.len() > 0 {
        let k = samples.len() - 1;
        let prefix = states.take(k + 1);
        let firsts = samples.take(k as int);
        assert forall|i: int| 0 <= i < firsts.len() implies {
            &&& #[trigger] prefix[i + 1].spec_name() == prefix[i].spec_name()
            &&& prefix[i + 1].spec_total() == prefix[i].spec_total() + firsts[i]@
            &&& prefix[i + 1].spec_sample_count() == prefix[i].spec_sample_count() + 1
        } by {
            assert(states[i + 1].spec_name() == states[i].spec_name());
        }
        lemma_benchmark_accumulates(prefix, firsts);
        assert(samples.drop_last() =~= firsts);
        assert(states[k + 1].spec_name() == states[k].spec_name());
    }
}

/// The lowercase hexadecimal digit for `n` (0 to 15).
pub open spec fn hex_digit(n: int) -> char {
    if n < 10 {
        (n + 48) as char
    } else {
        (n + 87) as char
    }
}

/// A byte as two lowercase hexadecimal digits.
pub open spec fn byte_hex(b: u8) -> Seq<char> {
    seq![hex_digit(b as int / 16), hex_digit(b as int % 16)]
}

/// The bytes of an address as hexadecimal pairs separated by `:`.
pub open spec fn address_text(bytes: Seq<u8>) -> Seq<char>
    decreases bytes.len(),
{
    if bytes.len() == 0 {
        seq![]
    } else if bytes.len() == 1 {
        byte_hex(bytes[0])
    } else {
        address_text(bytes.drop_last()) + seq![':'] + byte_hex(bytes.last())
    }
}

/// The one-character text of hexadecimal digit `n`.
pub(crate) fn hex_digit_str(n: u8) -> (s: &'static str)
    requires
        n < 16,
    ensures
        s@ == seq![hex_digit(n as int)],
{
    proof {
        reveal_strlit("0");
        reveal_strlit("1");
        reveal_strlit("2");
        reveal_strlit("3");
        reveal_strlit("4");
        reveal_strlit("5");
        reveal_strlit("6");
        reveal_strlit("7");
        reveal_strlit("8");
        reveal_strlit("9");
        reveal_strlit("a");
        reveal_strlit("b");
        reveal_strlit("c");
        reveal_strlit("d");
        reveal_strlit("e");
        reveal_strlit("f");
    }
    match n {
        0 => "0",
        1 => "1",
        2 => "2",
        3 => "3",
        4 => "4",
        5 => "5",
        6 => "6",
        7 => "7",
        8 => "8",
        9 => "9",
        10 => "a",
        11 => "b",
        12 => "c",
        13 => "d",
        14 => "e",
        _ => "f",
    }
}

/// A Bluetooth device address as six lowercase hexadecimal pairs separated
/// by colons, in the order the bytes are stored.
pub fn debug_addr(addr: [u8; 6]) -> (text: String)
    ensures
        text@ == address_text(addr@),
{
    let mut text = String::new();
    let colon = ":";
    proof {
        reveal_strlit(":");
    }
    let ghost bytes = addr@;
    assert(bytes.take(0) =~= seq![]);
    let mut i: usize = 0;
    while i < 6
        invariant
            bytes == addr@,
            bytes.len() == 6,
            i <= 6,
            colon@ == seq![':'],
            text@ == address_text(bytes.take(i as int)),
        decreases 6 - i,
    {
        assert(bytes.take(i + 1).drop_last() =~= bytes.take(i as int));
        if i > 0 {
            text.append(colon);
        }
        let b = addr[i];
        text.append(hex_digit_str(b / 16));
        text.append(hex_digit_str(b % 16));
        proof {
            if i == 0 {
                assert(text@ =~= byte_hex(b));
            } else {
                assert(text@ =~= address_text(bytes.take(i as int)) + seq![':'] + byte_hex(b));
            }
        }
        i = i + 1;
    }
    assert(bytes.take(6) =~= bytes);
    text
}

/// The manufacturer-data header of an Apple advertisement: the
/// manufacturer-specific data type (0xff) and Apple's company id (0x004c,
/// little endian).
pub open spec fn is_apple_advertisement(data: Seq<u8>) -> bool {
    data[1] == 0xff && data[2] == 0x4c && data[3] == 0x00
}

/// The payload of an Apple advertisement report (the bytes after its
/// four-byte header), or `None` for any other advertisement.
pub fn apple_payload(data: &[u8]) -> (r: Option<Vec<u8>>)
    requires
        data@.len() >= 4,
    ensures
        r is Some <==> is_apple_advertisement(data@),
        r matches Some(payload) ==> payload@ == data@.skip(4),
{
    if data[1] == 0xff && data[2] == 0x4c && data[3] == 0x00 {
        let rest = vstd::slice::slice_subrange(data, 4, data.len());
        Some(vstd::slice::slice_to_vec(rest))
    } else {
        None
    }
}


/// An address of `n` bytes reads as `3n - 1` characters: two digits per
/// byte and a colon between neighbours; a Bluetooth address as 17.
pub proof fn lemma_address_text_len(bytes: Seq<u8>)
    requires
        bytes.len() >= 1,
    ensures
        address_text(bytes).len() == 3 * bytes.len() - 1,
    decreases bytes.len(),
{
    if bytes.len() > 1 {
        lemma_address_text_len(bytes.drop_last());
    }
}

} // verus!

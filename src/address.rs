use vstd::prelude::*;
use crate::outside::push_char;

verus! {

/// A 128-bit IPv6 address, held as its eight 16-bit segments (most significant first).
#[derive(Clone, Copy, Debug, Eq)]
pub struct Address {
    pub segments: [u16; 8],
}

impl PartialEq for Address {
    fn eq(&self, o: &Address) -> (r: bool) {
        let mut k: usize = 0;
        while k < 8
            invariant
                k <= 8,
                self.segments@.len() == 8,
                o.segments@.len() == 8,
                forall|i: int| 0 <= i < k ==> self.segments@[i] == o.segments@[i],
            decreases 8 - k,
        {
            if self.segments[k] != o.segments[k] {
                return false;
            }
            k = k + 1;
        }
        assert(self.segments =~= o.segments);
        true
    }
}

impl vstd::std_specs::cmp::PartialEqSpecImpl for Address {
    open spec fn obeys_eq_spec() -> bool {
        true
    }

    open spec fn eq_spec(&self, o: &Address) -> bool {
        self.segments == o.segments
    }
}

/// Lower-case hexadecimal digit for `d < 16`, decimal digit for `d < 10`.
pub open spec fn digit_char(d: nat) -> char {
    ((if d < 10 { d + 48 } else { d + 87 }) as u8) as char
}

/// `v` in base `b` (10 or 16), without leading zeros; zero is written "0".
pub open spec fn digits(v: nat, b: nat) -> Seq<char>
    decreases v,
    via digits_decreases
{
    if v < b || b < 2 {
        seq![digit_char(v)]
    } else {
        digits(v / b, b).push(digit_char(v % b))
    }
}

#[via_fn]
proof fn digits_decreases(v: nat, b: nat) {
    if !(v < b || b < 2) {
        assert(v / b < v) by (nonlinear_arith)
            requires
                b >= 2,
                v >= b,
        ;
    }
}

/// Segments written in hexadecimal and separated by colons.
pub open spec fn groups_text(s: Seq<u16>) -> Seq<char>
    decreases s.len(),
{
    if s.len() == 0 {
        Seq::empty()
    } else if s.len() == 1 {
        digits(s[0] as nat, 16)
    } else {
        groups_text(s.drop_last()) + seq![':'] + digits(s.last() as nat, 16)
    }
}

/// Number of consecutive zero segments starting at index `i`.
pub open spec fn zero_run(s: Seq<u16>, i: int) -> nat
    decreases s.len() - i,
{
    if i < 0 || i >= s.len() || s[i] != 0 {
        0
    } else {
        1 + zero_run(s, i + 1)
    }
}

/// Start and length of the longest zero run starting before index `k`; the
/// earliest one where several are equally long.
pub open spec fn longest_zero_run(s: Seq<u16>, k: int) -> (int, nat)
    decreases k,
{
    if k <= 0 {
        (0, 0)
    } else {
        let prev = longest_zero_run(s, k - 1);
        if zero_run(s, k - 1) > prev.1 {
            (k - 1, zero_run(s, k - 1))
        } else {
            prev
        }
    }
}

/// True of `::ffff:a.b.c.d`, an IPv4 address mapped into IPv6.
pub open spec fn is_v4_mapped(s: Seq<u16>) -> bool {
    s.len() == 8 && s[0] == 0 && s[1] == 0 && s[2] == 0 && s[3] == 0 && s[4] == 0
        && s[5] == 0xffff
}

/// The canonical text of an address: IPv4-mapped addresses as `::ffff:` and a
/// dotted quad; otherwise lower-case hexadecimal groups, with the longest run of
/// two or more zero groups written `::`.
pub open spec fn address_text(s: Seq<u16>) -> Seq<char> {
    if is_v4_mapped(s) {
        seq![':', ':', 'f', 'f', 'f', 'f', ':'] + digits(s[6] as nat / 256, 10) + seq!['.']
            + digits(s[6] as nat % 256, 10) + seq!['.'] + digits(s[7] as nat / 256, 10)
            + seq!['.'] + digits(s[7] as nat % 256, 10)
    } else {
        let run = longest_zero_run(s, s.len() as int);
        if run.1 > 1 {
            groups_text(s.subrange(0, run.0)) + seq![':', ':'] + groups_text(
                s.subrange(run.0 + run.1, s.len() as int),
            )
        } else {
            groups_text(s)
        }
    }
}

fn digit(d: u16) -> (c: char)
    requires
        d < 16,
    ensures
        c == digit_char(d as nat),
{
    let b: u8 = if d < 10 { d as u8 + 48 } else { d as u8 + 87 };
    b as char
}

fn push_digits(out: &mut String, v: u16, b: u16)
    requires
        b == 10 || b == 16,
    ensures
        final(out)@ == old(out)@ + digits(v as nat, b as nat),
    decreases v,
{
    if v < b {
        push_char(out, digit(v));
        assert(old(out)@.push(digit_char(v as nat)) =~= old(out)@ + seq![digit_char(v as nat)]);
    } else {
        push_digits(out, v / b, b);
        push_char(out, digit(v % b));
        assert(old(out)@ + digits(v as nat, b as nat) =~= old(out)@ + digits(
            (v / b) as nat,
            b as nat,
        ) + seq![digit_char((v % b) as nat)]);
    }
}

proof fn lemma_groups_step(s: Seq<u16>, from: int, k: int)
    requires
        0 <= from <= k < s.len(),
    ensures
        groups_text(s.subrange(from, k + 1)) == groups_text(s.subrange(from, k)) + (if k > from {
            seq![':']
        } else {
            Seq::empty()
        }) + digits(s[k] as nat, 16),
{
    let t = s.subrange(from, k + 1);
    assert(t.drop_last() =~= s.subrange(from, k));
    if k == from {
        assert(s.subrange(from, k) =~= Seq::<u16>::empty());
        assert(groups_text(s.subrange(from, k)) =~= Seq::<char>::empty());
    }
    assert(groups_text(s.subrange(from, k)) + Seq::<char>::empty() =~= groups_text(
        s.subrange(from, k),
    ));
}

fn push_groups(out: &mut String, s: &[u16; 8], from: usize, to: usize)
    requires
        from <= to <= 8,
    ensures
        final(out)@ == old(out)@ + groups_text(s@.subrange(from as int, to as int)),
{
    let mut k: usize = from;
    assert(s@.subrange(from as int, from as int) =~= Seq::<u16>::empty());
    assert(old(out)@ + Seq::<char>::empty() =~= old(out)@);
    while k < to
        invariant
            from <= k <= to <= 8,
            s@.len() == 8,
            out@ == old(out)@ + groups_text(s@.subrange(from as int, k as int)),
        decreases to - k,
    {
        proof {
            lemma_groups_step(s@, from as int, k as int);
        }
        if k > from {
            push_char(out, ':');
        }
        push_digits(out, s[k], 16);
        assert(out@ =~= old(out)@ + groups_text(s@.subrange(from as int, k + 1)));
        k = k + 1;
    }
}

impl Address {
    /// The address with the given eight segments.
    pub fn new(a: u16, b: u16, c: u16, d: u16, e: u16, f: u16, g: u16, h: u16) -> (r: Address)
        ensures
            r.segments@ == seq![a, b, c, d, e, f, g, h],
    {
        let r = Address { segments: [a, b, c, d, e, f, g, h] };
        assert(r.segments@ =~= seq![a, b, c, d, e, f, g, h]);
        r
    }

    /// The address with the given segments.
    pub fn from_segments(segments: [u16; 8]) -> (r: Address)
        ensures
            r.segments == segments,
    {
        Address { segments }
    }

    /// The eight segments, most significant first.
    pub fn segments(&self) -> (r: [u16; 8])
        ensures
            r == self.segments,
    {
        self.segments
    }

    /// Start and length of the longest run of zero segments (the earliest of equals).
    fn zero_span(&self) -> (r: (usize, usize))
        ensures
            r.0 as int == longest_zero_run(self.segments@, 8).0,
            r.1 as nat == longest_zero_run(self.segments@, 8).1,
            r.0 + r.1 <= 8,
    {
        let s = &self.segments;
        let mut best_start: usize = 0;
        let mut best_len: usize = 0;
        let mut k: usize = 0;
        while k < 8
            invariant
                k <= 8,
                s@.len() == 8,
                best_start as int == longest_zero_run(s@, k as int).0,
                best_len as nat == longest_zero_run(s@, k as int).1,
                best_start + best_len <= 8,
                best_len == 0 || best_len as nat == zero_run(s@, best_start as int),
            decreases 8 - k,
        {
            let mut j: usize = k;
            while j < 8 && s[j] == 0
                invariant
                    k <= j <= 8,
                    s@.len() == 8,
                    zero_run(s@, k as int) == (j - k) + zero_run(s@, j as int),
                decreases 8 - j,
            {
                j = j + 1;
            }
            assert(zero_run(s@, j as int) == 0);
            if j - k > best_len {
                best_start = k;
                best_len = j - k;
            }
            k = k + 1;
        }
        (best_start, best_len)
    }

    /// The canonical text form of the address (as `fe80::1`).
    pub fn to_text(&self) -> (r: String)
        ensures
            r@ == address_text(self.segments@),
    {
        let s = &self.segments;
        let mut out = String::new();
        if s[0] == 0 && s[1] == 0 && s[2] == 0 && s[3] == 0 && s[4] == 0 && s[5] == 0xffff {
            push_char(&mut out, ':');
            push_char(&mut out, ':');
            push_char(&mut out, 'f');
            push_char(&mut out, 'f');
            push_char(&mut out, 'f');
            push_char(&mut out, 'f');
            push_char(&mut out, ':');
            push_digits(&mut out, s[6] / 256, 10);
            push_char(&mut out, '.');
            push_digits(&mut out, s[6] % 256, 10);
            push_char(&mut out, '.');
            push_digits(&mut out, s[7] / 256, 10);
            push_char(&mut out, '.');
            push_digits(&mut out, s[7] % 256, 10);
            assert(out@ =~= address_text(s@));
        } else {
            let (start, len) = self.zero_span();
            if len > 1 {
                push_groups(&mut out, s, 0, start);
                push_char(&mut out, ':');
                push_char(&mut out, ':');
                push_groups(&mut out, s, start + len, 8);
                assert(out@ =~= address_text(s@));
            } else {
                push_groups(&mut out, s, 0, 8);
                assert(s@.subrange(0, 8) =~= s@);
                assert(out@ =~= address_text(s@));
            }
        }
        out
    }
}

} // verus!

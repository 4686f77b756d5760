use vstd::prelude::*;

verus! {

/// The decimal digits of `n`, as ASCII.
pub open spec fn decimal(n: nat) -> Seq<u8>
    decreases n,
{
    if n < 10 {
        seq![(48 + n) as u8]
    } else {
        decimal(n / 10).push((48 + n % 10) as u8)
    }
}

/// The escape sequence that sets a 24-bit foreground colour.
pub open spec fn color_escape(r: u8, g: u8, b: u8) -> Seq<u8> {
    seq![0x1bu8, 0x5bu8] + seq![0x33u8, 0x38u8, 0x3bu8, 0x32u8, 0x3bu8] + decimal(r as nat) + seq![
        0x3bu8,
    ] + decimal(g as nat) + seq![0x3bu8] + decimal(b as nat) + seq![0x6du8]
}

/// The escape sequence that restores the default colours.
pub open spec fn reset_escape() -> Seq<u8> {
    seq![0x1bu8, 0x5bu8, 0x30u8, 0x6du8]
}

/// Appends the decimal digits of `v`.
fn push_decimal(out: &mut Vec<u8>, v: u8)
    ensures
        final(out)@ == old(out)@ + decimal(v as nat),
{
    proof {
        reveal_with_fuel(decimal, 3);
    }
    if v >= 100 {
        out.push(48 + v / 100);
        out.push(48 + (v / 10) % 10);
        out.push(48 + v % 10);
        proof {
            assert(decimal(v as nat / 10) =~= seq![(48 + v / 100) as u8, (48 + (v / 10) % 10) as u8]);
        }
    } else if v >= 10 {
        out.push(48 + v / 10);
        out.push(48 + v % 10);
    } else {
        out.push(48 + v);
    }
    proof {
        assert(out@ =~= old(out)@ + decimal(v as nat));
    }
}

/// A 24-bit terminal foreground colour.
#[derive(Copy, Clone, Debug)]
pub struct Color(pub u8, pub u8, pub u8);

impl Color {
    pub fn rgb(r: u8, g: u8, b: u8) -> (c: Self)
        ensures
            c.0 == r && c.1 == g && c.2 == b,
    {
        Self(r, g, b)
    }

    /// Appends the escape sequence that switches the terminal to this colour.
    pub fn write(&self, out: &mut Vec<u8>)
        ensures
            final(out)@ == old(out)@ + color_escape(self.0, self.1, self.2),
    {
        out.push(0x1b);
        out.push(0x5b);
        out.push(0x33);
        out.push(0x38);
        out.push(0x3b);
        out.push(0x32);
        out.push(0x3b);
        push_decimal(out, self.0);
        out.push(0x3b);
        push_decimal(out, self.1);
        out.push(0x3b);
        push_decimal(out, self.2);
        out.push(0x6d);
        proof {
            assert(out@ =~= old(out)@ + color_escape(self.0, self.1, self.2));
        }
    }
}

/// Restores the terminal's default colours.
#[derive(Copy, Clone, Debug)]
pub struct Reset;

impl Reset {
    /// Appends the escape sequence that restores the default colours.
    pub fn write(&self, out: &mut Vec<u8>)
        ensures
            final(out)@ == old(out)@ + reset_escape(),
    {
        out.push(0x1b);
        out.push(0x5b);
        out.push(0x30);
        out.push(0x6d);
        proof {
            assert(out@ =~= old(out)@ + reset_escape());
        }
    }
}

} // verus!

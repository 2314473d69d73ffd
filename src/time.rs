use vstd::prelude::*;

verus! {

/// A UTC instant to the second, as calendar fields.
#[derive(Debug, Clone, Copy, PartialEq, Eq, Structural)]
pub struct AmzDate {
    pub year: u32,
    pub month: u32,
    pub day: u32,
    pub hour: u32,
    pub minute: u32,
    pub second: u32,
}

/// The last `w` decimal digits of `n`, most significant first.
pub open spec fn dec_digits(n: nat, w: nat) -> Seq<u8>
    decreases w,
{
    if w == 0 {
        seq![]
    } else {
        dec_digits(n / 10, (w - 1) as nat) + seq![(48u8 + n % 10) as u8]
    }
}

/// `YYYYMMDD`
pub open spec fn date_stamp(d: AmzDate) -> Seq<u8> {
    dec_digits(d.year as nat, 4) + dec_digits(d.month as nat, 2) + dec_digits(d.day as nat, 2)
}

/// `YYYYMMDD'T'HHMMSS'Z'`
pub open spec fn amz_timestamp(d: AmzDate) -> Seq<u8> {
    date_stamp(d) + seq![84u8] + dec_digits(d.hour as nat, 2) + dec_digits(d.minute as nat, 2)
        + dec_digits(d.second as nat, 2) + seq![90u8]
}

/// Appends the last `w` decimal digits of `n`.
pub fn push_digits(v: &mut Vec<u8>, n: u32, w: u32)
    ensures
        final(v)@ == old(v)@ + dec_digits(n as nat, w as nat),
    decreases w,
{
    if w > 0 {
        push_digits(v, n / 10, w - 1);
        v.push(48u8 + (n % 10) as u8);
        assert(final(v)@ =~= old(v)@ + dec_digits(n as nat, w as nat));
    } else {
        assert(final(v)@ =~= old(v)@ + dec_digits(n as nat, w as nat));
    }
}

impl AmzDate {
    /// `YYYYMMDD`, the date part of a signing scope.
    pub fn date_stamp(&self) -> (r: Vec<u8>)
        ensures
            r@ == date_stamp(*self),
    {
        let mut r: Vec<u8> = Vec::new();
        push_digits(&mut r, self.year, 4);
        push_digits(&mut r, self.month, 2);
        push_digits(&mut r, self.day, 2);
        assert(r@ =~= date_stamp(*self));
        r
    }

    /// `YYYYMMDD'T'HHMMSS'Z'`, the value of the `x-amz-date` header.
    pub fn timestamp(&self) -> (r: Vec<u8>)
        ensures
            r@ == amz_timestamp(*self),
    {
        let mut r = self.date_stamp();
        r.push(84u8);
        push_digits(&mut r, self.hour, 2);
        push_digits(&mut r, self.minute, 2);
        push_digits(&mut r, self.second, 2);
        r.push(90u8);
        assert(r@ =~= amz_timestamp(*self));
        r
    }
}

} // verus!

use vstd::prelude::*;

verus! {

/// What a pixel intensity type offers to the conversion: its bounds, the midpoint
/// of two samples, and its level as a number on `0 ..= top`.
pub trait Brightness: Sized + Copy {
    /// The level of a sample, counted from the lowest intensity.
    spec fn level(&self) -> nat;

    /// The level of the highest intensity.
    spec fn top() -> nat;

    /// The lowest representable intensity.
    fn min() -> (r: Self)
        ensures
            r.level() == 0,
    ;

    /// The highest representable intensity.
    fn max() -> (r: Self)
        ensures
            r.level() == Self::top(),
    ;

    /// The midpoint of two samples, rounded down, computed without overflow.
    fn average(&self, rhs: &Self) -> (r: Self)
        ensures
            r.level() == (self.level() + rhs.level()) / 2,
    ;

    /// The level of this sample as an integer.
    fn level_of(&self) -> (r: u32)
        ensures
            r as nat == self.level(),
    ;

    /// The highest level is positive and fits in sixteen bits.
    proof fn lemma_top_bounded()
        ensures
            0 < Self::top() <= 0xffff,
    ;

    /// No sample lies above the highest intensity.
    proof fn lemma_level_bounded(&self)
        ensures
            self.level() <= Self::top(),
    ;

    /// The level of the highest intensity as an integer.
    fn top_level() -> (r: u32)
        ensures
            r as nat == Self::top(),
            0 < r <= 0xffff,
    ;
}

impl Brightness for u8 {
    open spec fn level(&self) -> nat {
        *self as nat
    }

    open spec fn top() -> nat {
        0xff
    }

    fn min() -> (r: Self) {
        u8::MIN
    }

    fn max() -> (r: Self) {
        u8::MAX
    }

    fn average(&self, rhs: &Self) -> (r: Self) {
        ((*self as u16 + *rhs as u16) / 2) as u8
    }

    fn level_of(&self) -> (r: u32) {
        *self as u32
    }

    fn top_level() -> (r: u32) {
        0xff
    }

    proof fn lemma_level_bounded(&self) {
    }

    proof fn lemma_top_bounded() {
    }
}

impl Brightness for u16 {
    open spec fn level(&self) -> nat {
        *self as nat
    }

    open spec fn top() -> nat {
        0xffff
    }

    fn min() -> (r: Self) {
        u16::MIN
    }

    fn max() -> (r: Self) {
        u16::MAX
    }

    fn average(&self, rhs: &Self) -> (r: Self) {
        ((*self as u32 + *rhs as u32) / 2) as u16
    }

    fn level_of(&self) -> (r: u32) {
        *self as u32
    }

    fn top_level() -> (r: u32) {
        0xffff
    }

    proof fn lemma_level_bounded(&self) {
    }

    proof fn lemma_top_bounded() {
    }
}

/// The midpoint of two samples lies between them, and so within `[min, max]`: in
/// particular the average of the lowest and the highest intensity does not wrap around.
pub proof fn lemma_average_within<T: Brightness>(a: T, b: T)
    ensures
        ({
            let m = (a.level() + b.level()) / 2;
            &&& a.level() <= b.level() ==> a.level() <= m <= b.level()
            &&& b.level() <= a.level() ==> b.level() <= m <= a.level()
            &&& m <= T::top()
        }),
{
    a.lemma_level_bounded();
    b.lemma_level_bounded();
}

} // verus!

//! Conversions that may lose digits.

use vstd::prelude::*;
use vstd::std_specs::convert::FromSpec;
use crate::p::{p8, p16, p32, p64, p128};

verus! {

/// A conversion from `T` that may lose information, such as the truncation
/// of a polynomial to fewer digits.
pub trait FromLossy<T>: Sized {
    fn from_lossy(t: T) -> Self;
}

/// The conversion of `FromLossy` seen from the source type.
pub trait IntoLossy<T>: Sized {
    fn into_lossy(self) -> T;
}

impl<T, U> IntoLossy<T> for U where T: FromLossy<U> {
    /// What `T::from_lossy` gives on `self`.
    fn into_lossy(self) -> (r: T)
        ensures
            call_ensures(T::from_lossy, (self,), r),
    {
        T::from_lossy(self)
    }
}

/// Every lossless conversion is also a lossy one.
impl<T, U> FromLossy<T> for U where U: From<T> {
    /// What `U::from` gives on `t`.
    fn from_lossy(t: T) -> (r: U)
        ensures
            call_ensures(U::from, (t,), r),
            U::obeys_from_spec() ==> r == U::from_spec(t),
    {
        U::from(t)
    }
}

impl FromLossy<p16> for p8 {
    /// Keeps the low 8 digits.
    fn from_lossy(t: p16) -> (r: p8)
        ensures
            r.0 == t.0 as u8,
    {
        p8(t.0 as u8)
    }
}

impl FromLossy<p32> for p8 {
    /// Keeps the low 8 digits.
    fn from_lossy(t: p32) -> (r: p8)
        ensures
            r.0 == t.0 as u8,
    {
        p8(t.0 as u8)
    }
}

impl FromLossy<p32> for p16 {
    /// Keeps the low 16 digits.
    fn from_lossy(t: p32) -> (r: p16)
        ensures
            r.0 == t.0 as u16,
    {
        p16(t.0 as u16)
    }
}

impl FromLossy<p64> for p8 {
    /// Keeps the low 8 digits.
    fn from_lossy(t: p64) -> (r: p8)
        ensures
            r.0 == t.0 as u8,
    {
        p8(t.0 as u8)
    }
}

impl FromLossy<p64> for p16 {
    /// Keeps the low 16 digits.
    fn from_lossy(t: p64) -> (r: p16)
        ensures
            r.0 == t.0 as u16,
    {
        p16(t.0 as u16)
    }
}

impl FromLossy<p64> for p32 {
    /// Keeps the low 32 digits.
    fn from_lossy(t: p64) -> (r: p32)
        ensures
            r.0 == t.0 as u32,
    {
        p32(t.0 as u32)
    }
}

impl FromLossy<p128> for p8 {
    /// Keeps the low 8 digits.
    fn from_lossy(t: p128) -> (r: p8)
        ensures
            r.0 == t.0 as u8,
    {
        p8(t.0 as u8)
    }
}

impl FromLossy<p128> for p16 {
    /// Keeps the low 16 digits.
    fn from_lossy(t: p128) -> (r: p16)
        ensures
            r.0 == t.0 as u16,
    {
        p16(t.0 as u16)
    }
}

impl FromLossy<p128> for p32 {
    /// Keeps the low 32 digits.
    fn from_lossy(t: p128) -> (r: p32)
        ensures
            r.0 == t.0 as u32,
    {
        p32(t.0 as u32)
    }
}

impl FromLossy<p128> for p64 {
    /// Keeps the low 64 digits.
    fn from_lossy(t: p128) -> (r: p64)
        ensures
            r.0 == t.0 as u64,
    {
        p64(t.0 as u64)
    }
}

} // verus!

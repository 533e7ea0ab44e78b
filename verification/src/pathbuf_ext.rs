//! Appending decimal numbers to paths.

use vstd::prelude::*;
use std::path::PathBuf;
use crate::etw::tdh::{decimal_chars, push_decimal};

verus! {

#[verifier::external_type_specification]
#[verifier::external_body]
pub struct ExPathBuf(PathBuf);

/// The decimal digits of `v`, most significant first, without leading
/// zeros (`"0"` for zero).
pub open spec fn decimal_digits(v: nat) -> Seq<u8>
    decreases v,
{
    if v < 10 {
        seq![(48 + v) as u8]
    } else {
        decimal_digits(v / 10).push((48 + v % 10) as u8)
    }
}

/// The ASCII decimal digits of `value`, most significant first.
pub fn u64_decimal(value: u64) -> (digits: Vec<u8>)
    ensures
        digits@ == decimal_digits(value as nat),
    decreases value,
{
    if value < 10 {
        let mut d: Vec<u8> = Vec::new();
        d.push((48 + value) as u8);
        d
    } else {
        let mut d = u64_decimal(value / 10);
        d.push((48 + value % 10) as u8);
        d
    }
}

/// The text of a path.
pub uninterp spec fn path_text(p: PathBuf) -> Seq<char>;

/// The text of a path after `PathBuf::push` adds a relative component to
/// a path with text `base`.
pub uninterp spec fn pushed_text(base: Seq<char>, component: Seq<char>) -> Seq<char>;

/// Calls `PathBuf::push`. Trusted: the path's text becomes what the push
/// of the component gives (named `pushed_text`); nothing more is stated of
/// it.
#[verifier::external_body]
fn pathbuf_push(path: &mut PathBuf, component: &str)
    ensures
        path_text(*final(path)) == pushed_text(path_text(*old(path)), component@),
{
    path.push(component);
}

/// Pushing integers, in decimal, as path components.
pub trait PathBufInteger {
    /// The text of the path.
    spec fn spec_text(&self) -> Seq<char>;

    /// Pushes the decimal digits of `value` as a component.
    fn push_u64(&mut self, value: u64)
        ensures
            final(self).spec_text() == pushed_text(old(self).spec_text(), decimal_chars(value)),
    ;

    /// Pushes the decimal digits of `value` as a component.
    fn push_u32(&mut self, value: u32)
        ensures
            final(self).spec_text() == pushed_text(old(self).spec_text(), decimal_chars(value as u64)),
    {
        self.push_u64(value as u64);
    }

    /// Pushes the decimal digits of `value` as a component.
    fn push_u16(&mut self, value: u16)
        ensures
            final(self).spec_text() == pushed_text(old(self).spec_text(), decimal_chars(value as u64)),
    {
        self.push_u64(value as u64);
    }
}

impl PathBufInteger for PathBuf {
    open spec fn spec_text(&self) -> Seq<char> {
        path_text(*self)
    }

    /// Pushes the decimal digits of `value` (see `decimal_chars`).
    fn push_u64(&mut self, value: u64) {
        let mut text = String::new();
        push_decimal(&mut text, value);
        assert(text@ =~= decimal_chars(value));
        pathbuf_push(self, text.as_str());
    }
}

} // verus!

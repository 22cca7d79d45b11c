//! Wall-clock readings and unique ids for the persisted stores: an id minter whose
//! counter advances with every id, so successive ids differ whatever the clock reads.

use core::time::Duration;
use std::time::SystemTime;
use vstd::prelude::*;

use crate::text::{chars_of, decimal, string_of};

verus! {

fn push_decimal_wide(out: &mut Vec<char>, n: u128)
    ensures
        final(out)@ == old(out)@ + decimal(n as nat),
    decreases n,
{
    if n >= 10 {
        push_decimal_wide(out, n / 10);
    }
    let d = (n % 10) as u32;
    let c = crate::text::char_from_digit(d);
    out.push(c);
    proof {
        assert(decimal(n as nat) == if n < 10 {
            seq![crate::text::digit_char(n as nat)]
        } else {
            decimal((n / 10) as nat).push(crate::text::digit_char((n % 10) as nat))
        });
    }
}

/// The id `"{prefix}{nanos}-{counter}"`.
pub open spec fn id_spec(prefix: Seq<char>, nanos: u128, counter: u64) -> Seq<char> {
    prefix + decimal(nanos as nat) + "-"@ + decimal(counter as nat)
}

#[verifier::external_type_specification]
#[verifier::external_body]
pub struct ExSystemTime(std::time::SystemTime);

/// Calls `SystemTime::now`. The reading depends on the machine's clock, so nothing
/// is claimed of it.
#[verifier::external_body]
fn clock_now() -> SystemTime {
    SystemTime::now()
}

/// Calls `SystemTime::duration_since` with `UNIX_EPOCH`; its error (a reading before
/// the epoch) becomes `None`. Nothing is claimed of which of the two comes back.
#[verifier::external_body]
fn since_epoch(t: &SystemTime) -> Option<Duration> {
    t.duration_since(std::time::UNIX_EPOCH).ok()
}

/// Calls `Duration::as_secs`. The duration is opaque here, so nothing is claimed of
/// the count.
#[verifier::external_body]
fn whole_secs(d: &Duration) -> u64 {
    d.as_secs()
}

/// Calls `Duration::as_millis`. The duration is opaque here, so nothing is claimed
/// of the count.
#[verifier::external_body]
fn whole_millis(d: &Duration) -> u128 {
    d.as_millis()
}

/// Calls `Duration::as_nanos`. The duration is opaque here, so nothing is claimed of
/// the count.
#[verifier::external_body]
fn whole_nanos(d: &Duration) -> u128 {
    d.as_nanos()
}

/// Wall-clock milliseconds since the Unix epoch (0 on a pre-epoch clock; the count
/// is truncated to 64 bits).
pub fn now_ms() -> u64 {
    match since_epoch(&clock_now()) {
        Some(d) => {
            let ms = whole_millis(&d);
            #[verifier::truncate]
            (ms as u64)
        },
        None => 0,
    }
}

/// Wall-clock seconds since the Unix epoch (0 on a pre-epoch clock).
pub fn now_secs() -> u64 {
    match since_epoch(&clock_now()) {
        Some(d) => whole_secs(&d),
        None => 0,
    }
}

/// A unique id `"{prefix}{nanos}-{counter}"` from the clock's current nanoseconds
/// since the epoch (0 on a pre-epoch clock) and a process-lifetime counter value.
pub fn new_id(prefix: &str, counter: u64) -> (r: String)
    ensures
        exists|nanos: u128| r@ == id_spec(prefix@, nanos, counter),
{
    let nanos = match since_epoch(&clock_now()) {
        Some(d) => whole_nanos(&d),
        None => 0,
    };
    format_id(prefix, nanos, counter)
}

/// The id `"{prefix}{nanos}-{counter}"` for a given clock reading and counter value.
pub fn format_id(prefix: &str, nanos: u128, counter: u64) -> (r: String)
    ensures
        r@ == id_spec(prefix@, nanos, counter),
{
    let mut out = chars_of(prefix);
    push_decimal_wide(&mut out, nanos);
    out.push('-');
    crate::text::push_decimal(&mut out, counter);
    proof {
        reveal_strlit("-");
        assert(out@ =~= id_spec(prefix@, nanos, counter));
    }
    string_of(out.as_slice())
}

/// The counter value after `c`: one more, wrapping at the top.
pub open spec fn next_counter(c: u64) -> u64 {
    if c == u64::MAX {
        0
    } else {
        (c + 1) as u64
    }
}

/// Mints the ids of one process run: each id carries the clock's nanoseconds and a
/// counter that advances with every id, so ids minted in the same nanosecond differ.
pub struct IdMinter {
    pub next: u64,
}

impl IdMinter {
    /// A minter whose first id carries counter 0.
    pub fn new() -> (m: Self)
        ensures
            m.next == 0,
    {
        IdMinter { next: 0 }
    }

    /// Hand out the current counter value and advance it.
    pub fn take(&mut self) -> (c: u64)
        ensures
            c == old(self).next,
            final(self).next == next_counter(old(self).next),
    {
        let c = self.next;
        self.next = if c == u64::MAX {
            0
        } else {
            c + 1
        };
        c
    }

    /// The next id `"{prefix}{nanos}-{counter}"`; the counter advances.
    pub fn mint(&mut self, prefix: &str) -> (r: String)
        ensures
            exists|nanos: u128| r@ == id_spec(prefix@, nanos, old(self).next),
            final(self).next == next_counter(old(self).next),
    {
        let c = self.take();
        new_id(prefix, c)
    }
}

/// Two successive ids of one minter differ, whatever the clock read, and both start
/// with the prefix.
pub proof fn lemma_successive_ids_distinct(prefix: Seq<char>, n1: u128, n2: u128, c: u64)
    ensures
        id_spec(prefix, n1, c) != id_spec(prefix, n2, next_counter(c)),
        id_spec(prefix, n1, c).take(prefix.len() as int) == prefix,
        id_spec(prefix, n2, next_counter(c)).take(prefix.len() as int) == prefix,
{
    lemma_ids_distinct(prefix, n1, c, n2, next_counter(c));
    assert(id_spec(prefix, n1, c).take(prefix.len() as int) =~= prefix);
    assert(id_spec(prefix, n2, next_counter(c)).take(prefix.len() as int) =~= prefix);
}

/// Ids minted with distinct counters differ, whatever the clock read.
pub proof fn lemma_ids_distinct(prefix: Seq<char>, n1: u128, c1: u64, n2: u128, c2: u64)
    requires
        c1 != c2,
    ensures
        id_spec(prefix, n1, c1) != id_spec(prefix, n2, c2),
{
    crate::text::lemma_decimal_no_dash(n1 as nat);
    crate::text::lemma_decimal_no_dash(n2 as nat);
    crate::text::lemma_decimal_no_dash(c1 as nat);
    crate::text::lemma_decimal_no_dash(c2 as nat);
    crate::text::lemma_decimal_injective(c1 as nat, c2 as nat);
    let a = id_spec(prefix, n1, c1);
    let b = id_spec(prefix, n2, c2);
    reveal_strlit("-");
    if a == b {
        let ta = decimal(c1 as nat);
        let tb = decimal(c2 as nat);
        // The text after the last '-' is the counter's decimal form.
        assert(a.subrange(a.len() - ta.len(), a.len() as int) =~= ta);
        assert(b.subrange(b.len() - tb.len(), b.len() as int) =~= tb);
        if ta.len() < tb.len() {
            assert(b[b.len() - ta.len() - 1] == tb[tb.len() - ta.len() - 1]);
            assert(a[a.len() - ta.len() - 1] == '-');
        } else if tb.len() < ta.len() {
            assert(a[a.len() - tb.len() - 1] == ta[ta.len() - tb.len() - 1]);
            assert(b[b.len() - tb.len() - 1] == '-');
        } else {
            assert(ta =~= tb);
        }
    }
}

} // verus!

//! Store keys: one per prefix, resource and subject, optionally extended with
//! a window epoch or a fixed suffix.
//!
//! The parts are joined by `:`. A part that holds a `:` itself is refused, so
//! that no two different triples ever share a key.

use vstd::prelude::*;
use vstd::string::*;
use crate::clock::usable;
use crate::error::LimiterError;
use crate::text::{decimal_string, signed_decimal, signed_decimal_is_plain};

verus! {

/// `prefix:resource:subject`.
pub open spec fn subject_key_of(prefix: Seq<char>, resource: Seq<char>, subject: Seq<char>) -> Seq<
    char,
> {
    prefix + seq![':'] + resource + seq![':'] + subject
}

/// `prefix:resource:subject:epoch`, the epoch in decimal. An epoch before the
/// clock's zero is written with a minus sign; no counter is ever stored under
/// such a key.
pub open spec fn window_key_of(
    prefix: Seq<char>,
    resource: Seq<char>,
    subject: Seq<char>,
    epoch: int,
) -> Seq<char> {
    subject_key_of(prefix, resource, subject) + seq![':'] + signed_decimal(epoch)
}

/// `prefix:resource:subject:last_set_time`.
pub open spec fn last_set_time_key_of(
    prefix: Seq<char>,
    resource: Seq<char>,
    subject: Seq<char>,
) -> Seq<char> {
    subject_key_of(prefix, resource, subject) + ":last_set_time"@
}

/// `prefix:resource:subject:remain_requests`.
pub open spec fn remaining_key_of(
    prefix: Seq<char>,
    resource: Seq<char>,
    subject: Seq<char>,
) -> Seq<char> {
    subject_key_of(prefix, resource, subject) + ":remain_requests"@
}

/// Text without the separator `:`.
pub open spec fn colon_free(s: Seq<char>) -> bool {
    forall|i: int| 0 <= i < s.len() ==> #[trigger] s[i] != ':'
}

/// Parts that a key can be made of: none of them holds the separator, so no
/// two different triples make the same key.
pub open spec fn nameable(prefix: Seq<char>, resource: Seq<char>, subject: Seq<char>) -> bool {
    colon_free(prefix) && colon_free(resource) && colon_free(subject)
}

/// A limit, a window and the parts of a key that an operation accepts.
pub open spec fn accepted(
    limit_per_sec: u64,
    window_secs: u64,
    prefix: Seq<char>,
    resource: Seq<char>,
    subject: Seq<char>,
) -> bool {
    usable(limit_per_sec, window_secs) && nameable(prefix, resource, subject)
}

/// Whether a text holds the separator `:`.
pub fn holds_colon(text: &str) -> (held: bool)
    ensures
        held == !colon_free(text@),
{
    let length = text.unicode_len();
    let mut i: usize = 0;
    while i < length
        invariant
            length == text@.len(),
            i <= length,
            forall|j: int| 0 <= j < i ==> #[trigger] text@[j] != ':',
        decreases length - i,
    {
        if text.get_char(i) == ':' {
            return true;
        }
        i += 1;
    }
    false
}

/// Whether a key can be made of the three parts.
pub fn can_name(prefix: &str, resource: &str, subject: &str) -> (r: bool)
    ensures
        r == nameable(prefix@, resource@, subject@),
{
    !holds_colon(prefix) && !holds_colon(resource) && !holds_colon(subject)
}

/// The three parts joined by the separator.
fn join(prefix: &str, resource: &str, subject: &str) -> (key: String)
    ensures
        key@ == subject_key_of(prefix@, resource@, subject@),
{
    let mut key = String::from_str(prefix);
    key.append(":");
    key.append(resource);
    key.append(":");
    key.append(subject);
    proof {
        reveal_strlit(":");
        assert(key@ =~= subject_key_of(prefix@, resource@, subject@));
    }
    key
}

/// The key of a subject, or `Configuration` where a part holds a `:`.
pub fn subject_key(prefix: &str, resource: &str, subject: &str) -> (r: Result<
    String,
    LimiterError,
>)
    ensures
        nameable(prefix@, resource@, subject@) ==> r is Ok && r->Ok_0@ == subject_key_of(
            prefix@,
            resource@,
            subject@,
        ),
        !nameable(prefix@, resource@, subject@) ==> r is Err && r->Err_0
            == LimiterError::Configuration,
{
    if can_name(prefix, resource, subject) {
        Ok(join(prefix, resource, subject))
    } else {
        Err(LimiterError::Configuration)
    }
}

/// The key of a subject's counter for the window that starts at `epoch`, or
/// `Configuration` where a part holds a `:`.
pub fn window_key(prefix: &str, resource: &str, subject: &str, epoch: u64) -> (r: Result<
    String,
    LimiterError,
>)
    ensures
        nameable(prefix@, resource@, subject@) ==> r is Ok && r->Ok_0@ == window_key_of(
            prefix@,
            resource@,
            subject@,
            epoch as int,
        ),
        !nameable(prefix@, resource@, subject@) ==> r is Err && r->Err_0
            == LimiterError::Configuration,
{
    if !can_name(prefix, resource, subject) {
        return Err(LimiterError::Configuration);
    }
    let mut key = join(prefix, resource, subject);
    key.append(":");
    let digits = decimal_string(epoch);
    key.append(digits.as_str());
    proof {
        reveal_strlit(":");
        assert(key@ =~= window_key_of(prefix@, resource@, subject@, epoch as int));
    }
    Ok(key)
}

/// The key of a subject's counter for the window before the one that starts
/// at `epoch`, or `Configuration` where a part holds a `:`.
pub fn previous_window_key(
    prefix: &str,
    resource: &str,
    subject: &str,
    epoch: u64,
    window_secs: u64,
) -> (r: Result<String, LimiterError>)
    ensures
        nameable(prefix@, resource@, subject@) ==> r is Ok && r->Ok_0@ == window_key_of(
            prefix@,
            resource@,
            subject@,
            epoch - window_secs,
        ),
        !nameable(prefix@, resource@, subject@) ==> r is Err && r->Err_0
            == LimiterError::Configuration,
{
    if epoch >= window_secs {
        window_key(prefix, resource, subject, epoch - window_secs)
    } else if !can_name(prefix, resource, subject) {
        Err(LimiterError::Configuration)
    } else {
        let mut key = join(prefix, resource, subject);
        key.append(":-");
        let digits = decimal_string(window_secs - epoch);
        key.append(digits.as_str());
        proof {
            reveal_strlit(":-");
            assert(key@ =~= window_key_of(prefix@, resource@, subject@, epoch - window_secs));
        }
        Ok(key)
    }
}

/// The key under which a token bucket keeps the time of its last refill, or
/// `Configuration` where a part holds a `:`.
pub fn last_set_time_key(prefix: &str, resource: &str, subject: &str) -> (r: Result<
    String,
    LimiterError,
>)
    ensures
        nameable(prefix@, resource@, subject@) ==> r is Ok && r->Ok_0@ == last_set_time_key_of(
            prefix@,
            resource@,
            subject@,
        ),
        !nameable(prefix@, resource@, subject@) ==> r is Err && r->Err_0
            == LimiterError::Configuration,
{
    if !can_name(prefix, resource, subject) {
        return Err(LimiterError::Configuration);
    }
    let mut key = join(prefix, resource, subject);
    key.append(":last_set_time");
    Ok(key)
}

/// The key under which a token bucket keeps its remaining tokens, or
/// `Configuration` where a part holds a `:`.
pub fn remaining_key(prefix: &str, resource: &str, subject: &str) -> (r: Result<
    String,
    LimiterError,
>)
    ensures
        nameable(prefix@, resource@, subject@) ==> r is Ok && r->Ok_0@ == remaining_key_of(
            prefix@,
            resource@,
            subject@,
        ),
        !nameable(prefix@, resource@, subject@) ==> r is Err && r->Err_0
            == LimiterError::Configuration,
{
    if !can_name(prefix, resource, subject) {
        return Err(LimiterError::Configuration);
    }
    let mut key = join(prefix, resource, subject);
    key.append(":remain_requests");
    Ok(key)
}

/// Two texts that agree after a common head agree in the tails.
pub proof fn same_head_same_tail(head: Seq<char>, a: Seq<char>, b: Seq<char>)
    requires
        head + a == head + b,
    ensures
        a == b,
{
    assert((head + a).subrange(head.len() as int, (head + a).len() as int) =~= a);
    assert((head + b).subrange(head.len() as int, (head + b).len() as int) =~= b);
}

/// A text is cut at its first separator in one way only.
pub proof fn first_colon_splits(a: Seq<char>, x: Seq<char>, b: Seq<char>, y: Seq<char>)
    requires
        colon_free(a),
        colon_free(b),
        a + seq![':'] + x == b + seq![':'] + y,
    ensures
        a == b,
        x == y,
{
    let left = a + seq![':'] + x;
    let right = b + seq![':'] + y;
    assert(left[a.len() as int] == ':');
    assert(right[b.len() as int] == ':');
    if a.len() < b.len() {
        assert(right[a.len() as int] == b[a.len() as int]);
        assert(false);
    }
    if b.len() < a.len() {
        assert(left[b.len() as int] == a[b.len() as int]);
        assert(false);
    }
    assert(a =~= b) by {
        assert forall|i: int| 0 <= i < a.len() implies a[i] == b[i] by {
            assert(left[i] == a[i]);
            assert(right[i] == b[i]);
        }
    }
    assert(x =~= y) by {
        assert(x.len() == y.len()) by {
            assert(left.len() == a.len() + 1 + x.len());
            assert(right.len() == b.len() + 1 + y.len());
        }
        assert forall|i: int| 0 <= i < x.len() implies x[i] == y[i] by {
            assert(left[a.len() + 1 + i] == x[i]);
            assert(right[b.len() + 1 + i] == y[i]);
        }
    }
}

/// No two subjects share a key: equal keys that can be made come from equal
/// prefixes, resources and subjects.
pub proof fn subject_keys_are_unique(
    prefix: Seq<char>,
    resource: Seq<char>,
    subject: Seq<char>,
    prefix2: Seq<char>,
    resource2: Seq<char>,
    subject2: Seq<char>,
)
    requires
        nameable(prefix, resource, subject),
        nameable(prefix2, resource2, subject2),
        subject_key_of(prefix, resource, subject) == subject_key_of(prefix2, resource2, subject2),
    ensures
        prefix == prefix2,
        resource == resource2,
        subject == subject2,
{
    let rest = resource + seq![':'] + subject;
    let rest2 = resource2 + seq![':'] + subject2;
    assert(subject_key_of(prefix, resource, subject) =~= prefix + seq![':'] + rest);
    assert(subject_key_of(prefix2, resource2, subject2) =~= prefix2 + seq![':'] + rest2);
    first_colon_splits(prefix, rest, prefix2, rest2);
    first_colon_splits(resource, subject, resource2, subject2);
}

/// No two windows of any subjects share a counter: equal window keys that can
/// be made come from equal parts and equal epochs.
pub proof fn window_keys_are_unique(
    prefix: Seq<char>,
    resource: Seq<char>,
    subject: Seq<char>,
    epoch: int,
    prefix2: Seq<char>,
    resource2: Seq<char>,
    subject2: Seq<char>,
    epoch2: int,
)
    requires
        nameable(prefix, resource, subject),
        nameable(prefix2, resource2, subject2),
        window_key_of(prefix, resource, subject, epoch) == window_key_of(
            prefix2,
            resource2,
            subject2,
            epoch2,
        ),
    ensures
        prefix == prefix2,
        resource == resource2,
        subject == subject2,
        epoch == epoch2,
{
    let tail = subject + seq![':'] + signed_decimal(epoch);
    let tail2 = subject2 + seq![':'] + signed_decimal(epoch2);
    let rest = resource + seq![':'] + tail;
    let rest2 = resource2 + seq![':'] + tail2;
    assert(window_key_of(prefix, resource, subject, epoch) =~= prefix + seq![':'] + rest);
    assert(window_key_of(prefix2, resource2, subject2, epoch2) =~= prefix2 + seq![':'] + rest2);
    first_colon_splits(prefix, rest, prefix2, rest2);
    first_colon_splits(resource, tail, resource2, tail2);
    first_colon_splits(subject, signed_decimal(epoch), subject2, signed_decimal(epoch2));
    signed_decimal_is_plain(epoch);
    signed_decimal_is_plain(epoch2);
}

/// One subject's counters for two different windows have different keys,
/// whatever the subject's text.
pub proof fn windows_have_their_own_keys(
    prefix: Seq<char>,
    resource: Seq<char>,
    subject: Seq<char>,
    epoch: int,
    epoch2: int,
)
    requires
        epoch != epoch2,
    ensures
        window_key_of(prefix, resource, subject, epoch) != window_key_of(
            prefix,
            resource,
            subject,
            epoch2,
        ),
{
    let head = subject_key_of(prefix, resource, subject) + seq![':'];
    if window_key_of(prefix, resource, subject, epoch) == window_key_of(
        prefix,
        resource,
        subject,
        epoch2,
    ) {
        assert(head + signed_decimal(epoch) == head + signed_decimal(epoch2));
        same_head_same_tail(head, signed_decimal(epoch), signed_decimal(epoch2));
        signed_decimal_is_plain(epoch);
        signed_decimal_is_plain(epoch2);
    }
}

/// A token bucket's two keys are different keys.
pub proof fn token_keys_differ(prefix: Seq<char>, resource: Seq<char>, subject: Seq<char>)
    ensures
        last_set_time_key_of(prefix, resource, subject) != remaining_key_of(
            prefix,
            resource,
            subject,
        ),
{
    reveal_strlit(":last_set_time");
    reveal_strlit(":remain_requests");
    let head = subject_key_of(prefix, resource, subject);
    if head + ":last_set_time"@ == head + ":remain_requests"@ {
        same_head_same_tail(head, ":last_set_time"@, ":remain_requests"@);
        assert(":last_set_time"@[1] == 'l');
        assert(":remain_requests"@[1] == 'r');
    }
}

} // verus!

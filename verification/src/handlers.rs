//! The request handlers: each takes what the HTTP layer extracted from a
//! request, rejects what is malformed before the store is touched, and
//! otherwise performs one operation on the store.

use vstd::prelude::*;
use crate::store::AppState;
use crate::task::{task_views, Task, TaskInput};

verus! {

/// Why a request was turned down.
#[derive(Debug, Clone, Copy, PartialEq, Eq, Structural)]
pub enum RequestError {
    /// The body or the path parameter does not have the expected shape.
    MalformedRequest,
}

/// Whether `c` is one of the ten decimal digits.
pub open spec fn is_digit(c: char) -> bool {
    '0' <= c <= '9'
}

/// The number that a decimal digit stands for.
pub open spec fn digit_value(c: char) -> int {
    c as int - '0' as int
}

/// Whether a sequence holds decimal digits only.
pub open spec fn all_digits(s: Seq<char>) -> bool {
    forall|i: int| 0 <= i < s.len() ==> is_digit(#[trigger] s[i])
}

/// The number that a sequence of decimal digits writes, most significant
/// digit first; 0 for the empty sequence.
pub open spec fn decimal_value(digits: Seq<char>) -> int
    decreases digits.len(),
{
    if digits.len() == 0 {
        0
    } else {
        10 * decimal_value(digits.drop_last()) + digit_value(digits.last())
    }
}

/// A path segment without its plus sign, if it starts with one.
pub open spec fn unsigned_part(s: Seq<char>) -> Seq<char> {
    if s.len() > 0 && s[0] == '+' {
        s.skip(1)
    } else {
        s
    }
}

/// The identifier that a path segment writes: an optional plus sign and then
/// one or more decimal digits, whose number fits in 32 bits. Anything else
/// writes none.
pub open spec fn segment_id(s: Seq<char>) -> Option<u32> {
    let digits = unsigned_part(s);
    if digits.len() > 0 && all_digits(digits) && decimal_value(digits) <= u32::MAX {
        Some(decimal_value(digits) as u32)
    } else {
        None
    }
}

/// A number written in digits is at least the number that any of its
/// prefixes writes.
pub proof fn lemma_decimal_prefix(digits: Seq<char>, n: int)
    requires
        all_digits(digits),
        0 <= n <= digits.len(),
    ensures
        0 <= decimal_value(digits.take(n)) <= decimal_value(digits),
    decreases digits.len() - n,
{
    if n == digits.len() {
        assert(digits.take(n) =~= digits);
        lemma_decimal_nonnegative(digits);
    } else {
        lemma_decimal_prefix(digits, n + 1);
        let longer = digits.take(n + 1);
        assert(longer.drop_last() =~= digits.take(n));
        assert(is_digit(digits[n]));
        assert(longer.last() == digits[n]);
        lemma_decimal_nonnegative(digits.take(n));
    }
}

/// A number written in digits is not negative.
pub proof fn lemma_decimal_nonnegative(digits: Seq<char>)
    requires
        all_digits(digits),
    ensures
        0 <= decimal_value(digits),
    decreases digits.len(),
{
    if digits.len() > 0 {
        assert forall|i: int| 0 <= i < digits.drop_last().len() implies is_digit(
            #[trigger] digits.drop_last()[i],
        ) by {
            assert(digits.drop_last()[i] == digits[i]);
        }
        lemma_decimal_nonnegative(digits.drop_last());
        assert(is_digit(digits.last()));
    }
}

/// Reads the identifier that a path segment writes.
pub fn parse_id(segment: &str) -> (res: Result<u32, RequestError>)
    ensures
        res == match segment_id(segment@) {
            Some(id) => Ok::<u32, RequestError>(id),
            None => Err::<u32, RequestError>(RequestError::MalformedRequest),
        },
{
    let mut value: u32 = 0;
    let mut first: bool = true;
    let mut any: bool = false;
    for c in it: segment.chars()
        invariant
            it.seq() == segment@,
            first <==> it.index() == 0,
            any <==> unsigned_part(segment@.take(it.index())).len() > 0,
            all_digits(unsigned_part(segment@.take(it.index()))),
            value == decimal_value(unsigned_part(segment@.take(it.index()))),
            unsigned_part(segment@.take(it.index())) == unsigned_part(segment@).take(
                unsigned_part(segment@.take(it.index())).len() as int,
            ),
    {
        let ghost read = unsigned_part(segment@.take(it.index()));
        let ghost longer = unsigned_part(segment@.take(it.index() + 1));
        let ghost whole = unsigned_part(segment@);
        assert(c == segment@[it.index()]);
        if first && c == '+' {
            proof {
                assert(longer =~= Seq::<char>::empty());
                assert(whole.take(0) =~= Seq::<char>::empty());
            }
        } else if '0' <= c && c <= '9' {
            let digit: u32 = c as u32 - '0' as u32;
            proof {
                assert(longer =~= read.push(c));
                assert(longer.drop_last() =~= read);
                assert(longer =~= whole.take(longer.len() as int));
            }
            if value > (u32::MAX - digit) / 10 {
                proof {
                    if all_digits(whole) {
                        lemma_decimal_prefix(whole, longer.len() as int);
                    }
                }
                return Err(RequestError::MalformedRequest);
            }
            value = value * 10 + digit;
            any = true;
        } else {
            proof {
                assert(longer =~= read.push(c));
                assert(longer =~= whole.take(longer.len() as int));
                assert(whole[longer.len() - 1] == c);
            }
            return Err(RequestError::MalformedRequest);
        }
        first = false;
    }
    proof {
        assert(segment@.take(segment@.len() as int) =~= segment@);
    }
    if any {
        Ok(value)
    } else {
        Err(RequestError::MalformedRequest)
    }
}

/// Lists the tasks: a snapshot of all of them, oldest first. The store is
/// left as it is.
pub fn get_tasks(state: &AppState) -> (tasks: Vec<Task>)
    ensures
        task_views(tasks@) == state@.tasks,
        state@.wf(),
{
    state.list()
}

/// Creates a task. `input` is what decoding the request body gave: `None`
/// for a body that is not a name and a description. Such a request is
/// turned down and the store is not touched; otherwise the task is created
/// under the next identifier and returned.
pub fn create_task(input: Option<TaskInput>, state: &mut AppState) -> (res: Result<
    Task,
    RequestError,
>)
    requires
        input is Some ==> old(state)@.next_id < u32::MAX,
    ensures
        match input {
            Some(payload) => {
                &&& res matches Ok(task)
                &&& task@ == old(state)@.fresh(payload.name@, payload.description@)
                &&& final(state)@ == old(state)@.create(payload.name@, payload.description@)
            },
            None => {
                &&& res matches Err(e)
                &&& e == RequestError::MalformedRequest
                &&& final(state)@ == old(state)@
            },
        },
        final(state)@.wf(),
{
    proof {
        use_type_invariant(&*state);
    }
    match input {
        Some(payload) => Ok(state.create(payload.name, payload.description)),
        None => Err(RequestError::MalformedRequest),
    }
}

/// Deletes a task. `id` is the path segment that names it. A segment that
/// writes no identifier is turned down and the store is not touched;
/// otherwise every task with that identifier is removed, and the request
/// succeeds whether or not there was one.
pub fn delete_task(id: &str, state: &mut AppState) -> (res: Result<(), RequestError>)
    ensures
        match segment_id(id@) {
            Some(n) => {
                &&& res == Ok::<(), RequestError>(())
                &&& final(state)@ == old(state)@.delete(n as int)
            },
            None => {
                &&& res == Err::<(), RequestError>(RequestError::MalformedRequest)
                &&& final(state)@ == old(state)@
            },
        },
        final(state)@.wf(),
{
    proof {
        use_type_invariant(&*state);
    }
    match parse_id(id) {
        Ok(n) => {
            state.delete(n);
            Ok(())
        },
        Err(e) => Err(e),
    }
}

} // verus!

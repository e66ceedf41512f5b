//! Route resolution for the two screens: an empty path is the counter view,
//! "history" (optionally with an integer week offset) is the weekly view,
//! and anything else resolves to a distinct not-found state rather than an
//! error.

use vstd::prelude::*;
use vstd::string::{StrSliceExecFns, StringExecFns};

verus! {

/// Where the application is navigated to.
#[derive(Clone, Copy, PartialEq, Eq, Structural, Debug)]
pub enum Route {
    /// The main counter view.
    Home,
    /// The weekly history view, with its week offset (0 = current week).
    History(i32),
    /// The fallback for any path that matches no view.
    NotFound,
}

/// `c` is a decimal digit.
pub open spec fn is_digit(c: char) -> bool {
    '0' <= c && c <= '9'
}

/// The numeric value of a digit character.
pub open spec fn digit_val(c: char) -> int {
    (c as u32) as int - 48
}

/// Every character of `s` is a decimal digit.
pub open spec fn all_digits(s: Seq<char>) -> bool {
    forall|j: int| 0 <= j < s.len() ==> is_digit(#[trigger] s[j])
}

/// The value of a digit string, most significant digit first.
pub open spec fn digits_val(s: Seq<char>) -> int
    decreases s.len(),
{
    if s.len() == 0 {
        0
    } else {
        digits_val(s.drop_last()) * 10 + digit_val(s.last())
    }
}

/// What `str::parse::<i32>` accepts: an optional sign followed by at least
/// one digit, the value within the `i32` range.
pub open spec fn spec_parse_i32(s: Seq<char>) -> Option<int> {
    let has_sign = s.len() > 0 && (s[0] == '+' || s[0] == '-');
    let neg = s.len() > 0 && s[0] == '-';
    let body = if has_sign {
        s.drop_first()
    } else {
        s
    };
    if body.len() == 0 || !all_digits(body) {
        None
    } else {
        let v = if neg {
            -digits_val(body)
        } else {
            digits_val(body)
        };
        if i32::MIN <= v <= i32::MAX {
            Some(v)
        } else {
            None
        }
    }
}

/// A digit string's value is never negative.
proof fn lemma_digits_val_nonneg(s: Seq<char>)
    requires
        all_digits(s),
    ensures
        digits_val(s) >= 0,
    decreases s.len(),
{
    if s.len() > 0 {
        assert(all_digits(s.drop_last()));
        lemma_digits_val_nonneg(s.drop_last());
    }
}

/// Parses a decimal integer exactly as `str::parse::<i32>` does: an
/// optional sign, then digits; anything else, or a value outside the `i32`
/// range, is rejected.
pub fn parse_i32(s: &str) -> (r: Option<i32>)
    ensures
        match r {
            Some(v) => spec_parse_i32(s@) == Some(v as int),
            None => spec_parse_i32(s@) is None,
        },
{
    let len = s.unicode_len();
    if len == 0 {
        return None;
    }
    let c0 = s.get_char(0);
    let neg = c0 == '-';
    let has_sign = c0 == '-' || c0 == '+';
    let start: usize = if has_sign {
        1
    } else {
        0
    };
    let ghost body = if has_sign {
        s@.drop_first()
    } else {
        s@
    };
    if start >= len {
        return None;
    }
    let mut acc: u64 = 0;
    let mut over = false;
    let mut i: usize = start;
    while i < len
        invariant
            len == s@.len(),
            start <= i <= len,
            start == if has_sign {
                1int
            } else {
                0int
            },
            start < len,
            has_sign == (s@[0] == '+' || s@[0] == '-'),
            body == if has_sign {
                s@.drop_first()
            } else {
                s@
            },
            body.len() == len - start,
            forall|j: int| 0 <= j < i - start ==> is_digit(#[trigger] body[j]),
            !over ==> acc <= 2_147_483_648 && acc as int == digits_val(
                body.take(i - start),
            ),
            over ==> digits_val(body.take(i - start)) > 2_147_483_648,
        decreases len - i,
    {
        let c = s.get_char(i);
        if c < '0' || c > '9' {
            proof {
                assert(body[i - start] == c);
                assert(!is_digit(c));
            }
            return None;
        }
        let d = (c as u32 - 48) as u64;
        proof {
            assert(body.take(i - start + 1).drop_last() =~= body.take(i - start));
            assert(body.take(i - start + 1).last() == c);
            assert(digits_val(body.take(i - start + 1)) == digits_val(body.take(i - start)) * 10
                + digit_val(c));
        }
        if !over {
            let new_acc = acc * 10 + d;
            if new_acc > 2_147_483_648 {
                over = true;
            } else {
                acc = new_acc;
            }
        } else {
            proof {
                assert(digits_val(body.take(i - start)) * 10 + digit_val(c) > 2_147_483_648);
            }
        }
        i = i + 1;
    }
    proof {
        assert(body.take(len - start) =~= body);
        assert(all_digits(body));
        lemma_digits_val_nonneg(body);
    }
    if over {
        return None;
    }
    if neg {
        if acc == 2_147_483_648 {
            Some(i32::MIN)
        } else {
            Some(-(acc as i32))
        }
    } else {
        if acc > 2_147_483_647 {
            None
        } else {
            Some(acc as i32)
        }
    }
}

/// The views of a list of path segments.
pub open spec fn seg_views(s: Seq<String>) -> Seq<Seq<char>> {
    Seq::new(s.len(), |i: int| s[i]@)
}

/// Which route a path resolves to: the empty path is home, "history" with
/// no or an integer-parseable offset is the weekly view, all else is the
/// not-found state.
pub open spec fn spec_route(segs: Seq<Seq<char>>) -> Route {
    if segs.len() == 0 {
        Route::Home
    } else if segs.len() == 1 && segs[0] == "history"@ {
        Route::History(0)
    } else if segs.len() == 2 && segs[0] == "history"@ && spec_parse_i32(segs[1]) is Some {
        Route::History(spec_parse_i32(segs[1]).unwrap() as i32)
    } else {
        Route::NotFound
    }
}

/// Resolves the remaining path segments of a URL to a route.
pub fn parse_route(segs: &Vec<String>) -> (r: Route)
    ensures
        r == spec_route(seg_views(segs@)),
{
    if segs.len() == 0 {
        return Route::Home;
    }
    let history = String::from_str("history");
    if segs.len() == 1 {
        if segs[0] == history {
            Route::History(0)
        } else {
            Route::NotFound
        }
    } else if segs.len() == 2 {
        if segs[0] == history {
            match parse_i32(segs[1].as_str()) {
                Some(v) => Route::History(v),
                None => Route::NotFound,
            }
        } else {
            Route::NotFound
        }
    } else {
        Route::NotFound
    }
}

} // verus!

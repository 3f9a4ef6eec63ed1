//! Parsing the interactive client's command line: whitespace-split tokens
//! become a wire command. Keywords are matched without regard to ASCII
//! case; keys and range bounds are taken verbatim; a value must be a
//! decimal number that fits the value type, else the line is rejected.

use vstd::prelude::*;

use crate::command::WireCommand;

verus! {

/// A character's code point with ASCII lower-case letters folded to upper
/// case.
pub open spec fn upper_code(c: char) -> u32 {
    if 97 <= c as u32 <= 122 {
        (c as u32 - 32) as u32
    } else {
        c as u32
    }
}

/// Whether two character sequences agree up to ASCII case.
pub open spec fn eq_icase(a: Seq<char>, b: Seq<char>) -> bool {
    a.len() == b.len() && forall|i: int|
        0 <= i < a.len() ==> upper_code(a[i]) == upper_code(b[i])
}

// A character's code point, ASCII lower case folded to upper.
fn upper_code_of(c: char) -> (u: u32)
    ensures
        u == upper_code(c),
{
    let x = c as u32;
    if 97 <= x && x <= 122 {
        x - 32
    } else {
        x
    }
}

/// Whether `t` matches the keyword `kw` up to ASCII case.
fn keyword_match(t: &str, kw: &str) -> (b: bool)
    ensures
        b == eq_icase(t@, kw@),
{
    let tl = t.unicode_len();
    let kl = kw.unicode_len();
    if tl != kl {
        return false;
    }
    let mut i: usize = 0;
    while i < tl
        invariant
            i <= tl,
            tl == t@.len(),
            tl == kw@.len(),
            forall|j: int| 0 <= j < i ==> upper_code(t@[j]) == upper_code(kw@[j]),
        decreases tl - i,
    {
        let a = upper_code_of(t.get_char(i));
        let b = upper_code_of(kw.get_char(i));
        if a != b {
            return false;
        }
        i = i + 1;
    }
    true
}

/// Whether the character is a decimal digit.
pub open spec fn is_digit(c: char) -> bool {
    48 <= c as u32 <= 57
}

/// Whether the sequence is a non-empty run of decimal digits.
pub open spec fn digits_only(s: Seq<char>) -> bool {
    s.len() > 0 && forall|i: int| 0 <= i < s.len() ==> is_digit(#[trigger] s[i])
}

/// The number the digit run denotes, most significant digit first.
pub open spec fn dec_val(s: Seq<char>) -> int
    decreases s.len(),
{
    if s.len() == 0 {
        0
    } else {
        dec_val(s.drop_last()) * 10 + (s.last() as u32 - 48)
    }
}

/// Whether the sequence is a decimal number that fits the value type.
pub open spec fn fits_u64(s: Seq<char>) -> bool {
    digits_only(s) && dec_val(s) <= u64::MAX
}

// A digit run denotes a non-negative number.
proof fn lemma_dec_val_nonneg(s: Seq<char>)
    requires
        forall|i: int| 0 <= i < s.len() ==> is_digit(#[trigger] s[i]),
    ensures
        dec_val(s) >= 0,
    decreases s.len(),
{
    if s.len() > 0 {
        lemma_dec_val_nonneg(s.drop_last());
    }
}

// Reading more digits never shrinks the number.
proof fn lemma_dec_val_mono(s: Seq<char>, i: int)
    requires
        forall|j: int| 0 <= j < s.len() ==> is_digit(#[trigger] s[j]),
        0 <= i <= s.len(),
    ensures
        dec_val(s.take(i)) <= dec_val(s),
    decreases s.len() - i,
{
    if i < s.len() {
        lemma_dec_val_mono(s, i + 1);
        assert(s.take(i + 1).drop_last() =~= s.take(i));
        assert forall|j: int| 0 <= j < s.take(i).len() implies is_digit(
            #[trigger] s.take(i)[j],
        ) by {
            assert(s.take(i)[j] == s[j]);
        }
        lemma_dec_val_nonneg(s.take(i));
        assert(dec_val(s.take(i + 1)) == dec_val(s.take(i)) * 10 + (s[i] as u32 - 48));
        assert(dec_val(s.take(i)) * 10 >= dec_val(s.take(i))) by (nonlinear_arith)
            requires
                dec_val(s.take(i)) >= 0,
        ;
    } else {
        assert(s.take(i) =~= s);
    }
}

/// Parses a decimal number; anything but a digit run that fits the value
/// type is rejected.
pub fn parse_u64(s: &str) -> (r: Option<u64>)
    ensures
        r == (if fits_u64(s@) {
            Some(dec_val(s@) as u64)
        } else {
            None::<u64>
        }),
{
    let n = s.unicode_len();
    if n == 0 {
        return None;
    }
    let mut acc: u64 = 0;
    let mut i: usize = 0;
    while i < n
        invariant
            i <= n,
            n == s@.len(),
            n > 0,
            forall|j: int| 0 <= j < i ==> is_digit(#[trigger] s@[j]),
            acc == dec_val(s@.take(i as int)),
        decreases n - i,
    {
        let c = s.get_char(i);
        let u = c as u32;
        if u < 48 || u > 57 {
            return None;
        }
        let d = (u - 48) as u64;
        proof {
            assert forall|j: int| 0 <= j < i + 1 implies is_digit(#[trigger] s@[j]) by {}
            assert(s@.take(i as int + 1).drop_last() =~= s@.take(i as int));
            assert(s@.take(i as int + 1).last() == s@[i as int]);
        }
        if acc > (u64::MAX - d) / 10 {
            proof {
                assert(acc * 10 + d > u64::MAX) by (nonlinear_arith)
                    requires
                        acc > (u64::MAX - d) / 10,
                        0 <= d <= 9,
                ;
                assert(dec_val(s@.take(i as int + 1)) > u64::MAX);
                if digits_only(s@) {
                    lemma_dec_val_mono(s@, i as int + 1);
                }
            }
            return None;
        }
        proof {
            assert(acc * 10 + d <= u64::MAX) by (nonlinear_arith)
                requires
                    acc <= (u64::MAX - d) / 10,
                    0 <= d <= 9,
            ;
        }
        acc = acc * 10 + d;
        i = i + 1;
    }
    proof {
        assert(s@.take(n as int) =~= s@);
        lemma_dec_val_nonneg(s@);
    }
    Some(acc)
}

/// Parses one whitespace-split command line into a wire command for this
/// session's user. Keywords are matched without regard to ASCII case; a
/// line that fits no command shape, or whose value does not parse, yields
/// nothing.
pub fn parse_repl(tokens: &Vec<String>, user_id: &str) -> (r: Option<WireCommand>)
    ensures
        ({
            let t = tokens@.map_values(|x: String| x@);
            let n = t.len();
            let c_hi = n == 1 && eq_icase(t[0], "HI"@);
            let c_exit = n == 1 && eq_icase(t[0], "EXIT"@);
            let c_ping = n == 1 && eq_icase(t[0], "PING"@);
            let c_list = n == 1 && eq_icase(t[0], "LIST"@);
            let c_store = n == 3 && eq_icase(t[0], "STORE"@);
            let c_fetch = n == 2 && eq_icase(t[0], "FETCH"@);
            let c_update = n == 3 && eq_icase(t[0], "UPDATE"@);
            let c_delete = n == 2 && eq_icase(t[0], "DELETE"@);
            let c_range = n == 4 && eq_icase(t[0], "GET"@) && eq_icase(t[1], "BETWEEN"@);
            match r {
                Some(w) => match w {
                    WireCommand::Hi { user_id: uid } => c_hi && (uid matches Some(u) && u@
                        == user_id@),
                    WireCommand::Exit { user_id: uid } => c_exit && uid@ == user_id@,
                    WireCommand::Ping { user_id: uid } => c_ping && uid@ == user_id@,
                    WireCommand::List { user_id: uid } => c_list && uid@ == user_id@,
                    WireCommand::Store { user_id: uid, key, value } => c_store && uid@ == user_id@
                        && key@ == t[1] && fits_u64(t[2]) && value == dec_val(t[2]),
                    WireCommand::Get { user_id: uid, key } => c_fetch && uid@ == user_id@ && key@
                        == t[1],
                    WireCommand::Update { user_id: uid, key, value } => c_update && uid@
                        == user_id@ && key@ == t[1] && fits_u64(t[2]) && value == dec_val(t[2]),
                    WireCommand::Del { user_id: uid, key } => c_delete && uid@ == user_id@ && key@
                        == t[1],
                    WireCommand::Range { user_id: uid, start, end } => c_range && uid@ == user_id@
                        && start@ == t[2] && end@ == t[3],
                },
                None => {
                    &&& !(c_hi || c_exit || c_ping || c_list || c_fetch || c_delete || c_range)
                    &&& c_store ==> !fits_u64(t[2])
                    &&& c_update ==> !fits_u64(t[2])
                },
            }
        }),
{
    let ghost t = tokens@.map_values(|x: String| x@);
    let n = tokens.len();
    if n == 1 {
        let t0 = &tokens[0];
        if keyword_match(t0.as_str(), "HI") {
            return Some(WireCommand::Hi { user_id: Some(user_id.to_owned()) });
        }
        if keyword_match(t0.as_str(), "EXIT") {
            return Some(WireCommand::Exit { user_id: user_id.to_owned() });
        }
        if keyword_match(t0.as_str(), "PING") {
            return Some(WireCommand::Ping { user_id: user_id.to_owned() });
        }
        if keyword_match(t0.as_str(), "LIST") {
            return Some(WireCommand::List { user_id: user_id.to_owned() });
        }
        return None;
    }
    if n == 2 {
        let t0 = &tokens[0];
        if keyword_match(t0.as_str(), "FETCH") {
            return Some(
                WireCommand::Get { user_id: user_id.to_owned(), key: tokens[1].clone() },
            );
        }
        if keyword_match(t0.as_str(), "DELETE") {
            return Some(
                WireCommand::Del { user_id: user_id.to_owned(), key: tokens[1].clone() },
            );
        }
        return None;
    }
    if n == 3 {
        let t0 = &tokens[0];
        let is_store = keyword_match(t0.as_str(), "STORE");
        let is_update = keyword_match(t0.as_str(), "UPDATE");
        if is_store || is_update {
            match parse_u64(tokens[2].as_str()) {
                Some(value) => {
                    proof {
                        assert(t[2] == tokens@[2]@);
                        lemma_dec_val_nonneg(tokens@[2]@);
                        assert(value == dec_val(t[2]));
                    }
                    if is_store {
                        return Some(
                            WireCommand::Store {
                                user_id: user_id.to_owned(),
                                key: tokens[1].clone(),
                                value,
                            },
                        );
                    }
                    return Some(
                        WireCommand::Update {
                            user_id: user_id.to_owned(),
                            key: tokens[1].clone(),
                            value,
                        },
                    );
                },
                None => {
                    return None;
                },
            }
        }
        return None;
    }
    if n == 4 {
        if keyword_match(tokens[0].as_str(), "GET") && keyword_match(
            tokens[1].as_str(),
            "BETWEEN",
        ) {
            return Some(
                WireCommand::Range {
                    user_id: user_id.to_owned(),
                    start: tokens[2].clone(),
                    end: tokens[3].clone(),
                },
            );
        }
        return None;
    }
    None
}

} // verus!

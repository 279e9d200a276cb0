use vstd::prelude::*;

use crate::model::{holds_items, item_count, value_text, TagValue};

verus! {

/// The character of a decimal digit.
pub open spec fn digit_char(d: int) -> char {
    (48 + d) as char
}

/// The decimal numeral of a natural number, without leading zeros.
pub open spec fn decimal(n: nat) -> Seq<char>
    decreases n,
{
    if n < 10 {
        seq![digit_char(n as int)]
    } else {
        decimal(n / 10).push(digit_char((n % 10) as int))
    }
}

/// The decimal numeral of an integer, with a leading minus sign when it is
/// negative.
pub open spec fn signed_decimal(x: int) -> Seq<char> {
    if x < 0 {
        seq!['-'] + decimal((-x) as nat)
    } else {
        decimal(x as nat)
    }
}

fn digit_str(d: u64) -> (r: &'static str)
    requires
        d < 10,
    ensures
        r@ == seq![digit_char(d as int)],
{
    proof {
        reveal_strlit("0");
        reveal_strlit("1");
        reveal_strlit("2");
        reveal_strlit("3");
        reveal_strlit("4");
        reveal_strlit("5");
        reveal_strlit("6");
        reveal_strlit("7");
        reveal_strlit("8");
        reveal_strlit("9");
    }
    match d {
        0 => "0",
        1 => "1",
        2 => "2",
        3 => "3",
        4 => "4",
        5 => "5",
        6 => "6",
        7 => "7",
        8 => "8",
        _ => "9",
    }
}

/// The decimal numeral of `n`.
pub fn decimal_string(n: u64) -> (r: String)
    ensures
        r@ == decimal(n as nat),
{
    let mut m = n;
    let mut acc = String::new();
    while m >= 10
        invariant
            decimal(n as nat) == decimal(m as nat) + acc@,
        decreases m,
    {
        let d = m % 10;
        let ghost old_acc = acc@;
        acc = String::from_str(digit_str(d)).concat(acc.as_str());
        proof {
            assert(decimal(m as nat) == decimal((m / 10) as nat).push(digit_char(d as int)));
            assert(decimal((m / 10) as nat).push(digit_char(d as int)) + old_acc =~= decimal(
                (m / 10) as nat,
            ) + acc@);
        }
        m = m / 10;
    }
    String::from_str(digit_str(m)).concat(acc.as_str())
}

/// The decimal numeral of `x`, with a minus sign when it is negative.
pub fn signed_decimal_string(x: i64) -> (r: String)
    ensures
        r@ == signed_decimal(x as int),
{
    if x < 0 {
        let magnitude: u64 = if x == i64::MIN {
            0x8000_0000_0000_0000
        } else {
            (-x) as u64
        };
        let digits = decimal_string(magnitude);
        proof {
            reveal_strlit("-");
        }
        String::from_str("-").concat(digits.as_str())
    } else {
        decimal_string(x as u64)
    }
}

// ---------------------------------------------------------------------------
// Reading numerals back
// ---------------------------------------------------------------------------

/// The value of a string of decimal digits, most significant first.
pub open spec fn digits_value(d: Seq<char>) -> int
    decreases d.len(),
{
    if d.len() == 0 {
        0
    } else {
        digits_value(d.drop_last()) * 10 + (d.last() as int - 48)
    }
}

/// One or more decimal digits, the first of them not `0` unless it is the
/// only one.
pub open spec fn is_unsigned_numeral(d: Seq<char>) -> bool {
    &&& d.len() > 0
    &&& forall|i: int| 0 <= i < d.len() ==> 48 <= #[trigger] (d[i] as int) <= 57
    &&& (d.len() > 1 ==> d[0] != '0')
}

/// What a numeral with an optional leading minus sign reads back as.
pub open spec fn numeral_value(t: Seq<char>) -> int {
    if t.len() > 0 && t[0] == '-' {
        -digits_value(t.drop_first())
    } else {
        digits_value(t)
    }
}

/// The value of an integer payload.
pub open spec fn integer_of(v: TagValue) -> int {
    match v {
        TagValue::Byte(x) => x as int,
        TagValue::Short(x) => x as int,
        TagValue::Int(x) => x as int,
        TagValue::Long(x) => x as int,
        _ => 0,
    }
}

proof fn lemma_decimal_reads_back(n: nat)
    ensures
        is_unsigned_numeral(decimal(n)),
        digits_value(decimal(n)) == n,
        n >= 1 ==> decimal(n)[0] != '0',
    decreases n,
{
    if n < 10 {
        let d = decimal(n);
        assert(d.drop_last() =~= Seq::<char>::empty());
        assert(digits_value(Seq::<char>::empty()) == 0);
        assert(((48 + n) as char) as int == 48 + n);
        assert(d.last() == digit_char(n as int));
        assert(digits_value(d) == digits_value(d.drop_last()) * 10 + (d.last() as int - 48));
    } else {
        let q = (n / 10) as nat;
        let r = (n % 10) as int;
        lemma_decimal_reads_back(q);
        let d = decimal(n);
        assert(d == decimal(q).push(digit_char(r)));
        assert(d.drop_last() =~= decimal(q));
        assert(((48 + r) as char) as int == 48 + r);
        assert(n == q * 10 + r);
        assert(d.last() == digit_char(r));
        assert(digits_value(d) == digits_value(d.drop_last()) * 10 + (d.last() as int - 48));
        assert forall|i: int| 0 <= i < d.len() implies 48 <= #[trigger] (d[i] as int) <= 57 by {
            if i < decimal(q).len() {
                assert(d[i] == decimal(q)[i]);
            }
        }
        assert(d[0] == decimal(q)[0]);
    }
}

/// The text of an integer payload is its decimal numeral: a minus sign
/// exactly when the value is negative, then digits without leading zeros,
/// and it reads back as the value.
pub proof fn integer_texts_read_back(v: TagValue)
    requires
        v is Byte || v is Short || v is Int || v is Long,
    ensures
        value_text(v) matches Some(t) && {
            &&& (t.len() > 0 && t[0] == '-') == (integer_of(v) < 0)
            &&& is_unsigned_numeral(if integer_of(v) < 0 { t.drop_first() } else { t })
            &&& numeral_value(t) == integer_of(v)
        },
{
    let x = integer_of(v);
    reveal_strlit("-");
    if x < 0 {
        lemma_decimal_reads_back((-x) as nat);
        let t = seq!['-'] + decimal((-x) as nat);
        assert(t.drop_first() =~= decimal((-x) as nat));
    } else {
        lemma_decimal_reads_back(x as nat);
        if x > 0 {
            assert(decimal(x as nat)[0] != '-');
        } else {
            assert(decimal(0) == seq!['0']);
        }
    }
}

/// The text of a collection payload is the number of its items in decimal,
/// then ` item(s)`.
pub proof fn collection_texts_count_items(v: TagValue)
    requires
        holds_items(v),
    ensures
        value_text(v) matches Some(t) && {
            &&& t.len() > 8
            &&& t.subrange(t.len() - 8, t.len() as int) == " item(s)"@
            &&& is_unsigned_numeral(t.subrange(0, t.len() - 8))
            &&& digits_value(t.subrange(0, t.len() - 8)) == item_count(v)
        },
{
    reveal_strlit(" item(s)");
    let d = decimal(item_count(v));
    lemma_decimal_reads_back(item_count(v));
    let t = d + " item(s)"@;
    assert(t.subrange(0, t.len() - 8) =~= d);
    assert(t.subrange(t.len() - 8, t.len() as int) =~= " item(s)"@);
}

} // verus!

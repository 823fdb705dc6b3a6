//! Ordering of strings by their characters, as `String`'s own `Ord` orders them.

use vstd::prelude::*;
use vstd::std_specs::iter::IteratorSpec;
use vstd::string::StringExecFns;

verus! {

/// Strict lexicographic order on character sequences, comparing characters
/// by their code points. For UTF-8 strings this is the order of `String`.
pub open spec fn lex_lt(a: Seq<char>, b: Seq<char>) -> bool
    decreases a.len(),
{
    if a.len() == 0 {
        b.len() > 0
    } else if b.len() == 0 {
        false
    } else if a[0] != b[0] {
        a[0] < b[0]
    } else {
        lex_lt(a.drop_first(), b.drop_first())
    }
}

/// No sequence is below itself.
pub proof fn lemma_lex_irreflexive(a: Seq<char>)
    ensures
        !lex_lt(a, a),
    decreases a.len(),
{
    if a.len() > 0 {
        lemma_lex_irreflexive(a.drop_first());
    }
}

/// The order is transitive.
pub proof fn lemma_lex_transitive(a: Seq<char>, b: Seq<char>, c: Seq<char>)
    requires
        lex_lt(a, b),
        lex_lt(b, c),
    ensures
        lex_lt(a, c),
    decreases a.len(),
{
    if a.len() > 0 && b.len() > 0 && c.len() > 0 && a[0] == b[0] && b[0] == c[0] {
        lemma_lex_transitive(a.drop_first(), b.drop_first(), c.drop_first());
    }
}

/// Two different sequences are ordered one way or the other, never both.
pub proof fn lemma_lex_total(a: Seq<char>, b: Seq<char>)
    ensures
        a != b ==> (lex_lt(a, b) || lex_lt(b, a)),
        !(lex_lt(a, b) && lex_lt(b, a)),
    decreases a.len(),
{
    if a.len() > 0 && b.len() > 0 {
        if a[0] == b[0] {
            lemma_lex_total(a.drop_first(), b.drop_first());
            if a != b {
                assert(a =~= seq![a[0]] + a.drop_first());
                assert(b =~= seq![b[0]] + b.drop_first());
            }
        }
    } else if a.len() == 0 && b.len() == 0 {
        assert(a =~= b);
    }
}

/// Whether `a` comes strictly before `b` in the order of their characters.
pub fn str_lt(a: &str, b: &str) -> (res: bool)
    ensures
        res == lex_lt(a@, b@),
{
    broadcast use vstd::string::group_string_axioms;
    let mut ia = a.chars();
    let mut ib = b.chars();
    loop
        invariant
            ia.obeys_prophetic_iter_laws(),
            ib.obeys_prophetic_iter_laws(),
            ia.decrease() is Some,
            lex_lt(a@, b@) == lex_lt(ia.remaining(), ib.remaining()),
        decreases ia.decrease()->0,
    {
        let ca = ia.next();
        let cb = ib.next();
        match (ca, cb) {
            (None, None) => {
                return false;
            },
            (None, Some(_)) => {
                return true;
            },
            (Some(_), None) => {
                return false;
            },
            (Some(x), Some(y)) => {
                if x != y {
                    return x < y;
                }
            },
        }
    }
}

/// Every two entries are in strictly increasing order.
pub open spec fn strictly_sorted(v: Seq<String>) -> bool {
    forall|i: int, j: int| 0 <= i < j < v.len() ==> lex_lt(#[trigger] v[i]@, #[trigger] v[j]@)
}

/// `v` lists the members of `set`, each once, in increasing order.
pub open spec fn sorted_listing(v: Seq<String>, set: Set<Seq<char>>) -> bool {
    &&& strictly_sorted(v)
    &&& forall|i: int| 0 <= i < v.len() ==> set.contains(#[trigger] v[i]@)
    &&& forall|x: Seq<char>| set.contains(x) ==> exists|i: int| 0 <= i < v.len() && #[trigger] v[i]@ == x
}

/// Entries of a strictly sorted sequence are pairwise different.
pub proof fn lemma_sorted_distinct(v: Seq<String>, i: int, j: int)
    requires
        strictly_sorted(v),
        0 <= i < v.len(),
        0 <= j < v.len(),
        i != j,
    ensures
        v[i]@ != v[j]@,
{
    if i < j {
        assert(lex_lt(v[i]@, v[j]@));
        lemma_lex_irreflexive(v[i]@);
    } else {
        assert(lex_lt(v[j]@, v[i]@));
        lemma_lex_irreflexive(v[j]@);
    }
}

/// Putting `x` where everything before it is smaller and everything from
/// there on is larger keeps the sequence strictly sorted.
pub proof fn lemma_insert_sorted(v: Seq<String>, p: int, x: String)
    requires
        strictly_sorted(v),
        0 <= p <= v.len(),
        forall|i: int| 0 <= i < p ==> lex_lt(#[trigger] v[i]@, x@),
        forall|i: int| p <= i < v.len() ==> lex_lt(x@, #[trigger] v[i]@),
    ensures
        strictly_sorted(v.insert(p, x)),
{
    let w = v.insert(p, x);
    assert forall|i: int, j: int| 0 <= i < j < w.len() implies lex_lt(#[trigger] w[i]@, #[trigger] w[j]@) by {
        if j < p {
            assert(w[i] == v[i] && w[j] == v[j]);
        } else if j == p {
            assert(w[i] == v[i]);
        } else if i < p {
            assert(w[i] == v[i] && w[j] == v[j - 1]);
            lemma_lex_transitive(v[i]@, x@, v[j - 1]@);
        } else if i == p {
            assert(w[j] == v[j - 1]);
        } else {
            assert(w[i] == v[i - 1] && w[j] == v[j - 1]);
        }
    }
}

/// Finds `name` in the strictly sorted `names`: its position when it is there,
/// else the position where it would have to be inserted.
pub fn find_name(names: &Vec<String>, name: &String) -> (r: (usize, bool))
    requires
        strictly_sorted(names@),
    ensures
        r.0 <= names@.len(),
        r.1 ==> r.0 < names@.len() && names@[r.0 as int]@ == name@,
        !r.1 ==> forall|i: int| 0 <= i < r.0 ==> lex_lt(#[trigger] names@[i]@, name@),
        !r.1 ==> forall|i: int| r.0 <= i < names@.len() ==> lex_lt(name@, #[trigger] names@[i]@),
{
    let mut i: usize = 0;
    while i < names.len() && str_lt(names[i].as_str(), name.as_str())
        invariant
            i <= names@.len(),
            strictly_sorted(names@),
            forall|j: int| 0 <= j < i ==> lex_lt(#[trigger] names@[j]@, name@),
        decreases names@.len() - i,
    {
        i = i + 1;
    }
    if i < names.len() && names[i] == *name {
        return (i, true);
    }
    proof {
        if i < names@.len() {
            lemma_lex_total(names@[i as int]@, name@);
            assert forall|j: int| i <= j < names@.len() implies lex_lt(name@, #[trigger] names@[j]@) by {
                if j > i {
                    assert(lex_lt(names@[i as int]@, names@[j]@));
                    lemma_lex_transitive(name@, names@[i as int]@, names@[j]@);
                }
            }
        }
    }
    (i, false)
}

/// A copy of a list of names.
pub fn copy_names(names: &Vec<String>) -> (r: Vec<String>)
    ensures
        r@ == names@,
{
    let mut r: Vec<String> = Vec::new();
    for i in 0..names.len()
        invariant
            r@ == names@.take(i as int),
    {
        r.push(names[i].clone());
        assert(r@ =~= names@.take(i + 1));
    }
    assert(names@.take(names@.len() as int) =~= names@);
    r
}

/// A set has only one sorted listing: two of them agree entry by entry.
pub proof fn lemma_listing_unique(v: Seq<String>, w: Seq<String>, set: Set<Seq<char>>)
    requires
        sorted_listing(v, set),
        sorted_listing(w, set),
    ensures
        v.len() == w.len(),
        forall|i: int| 0 <= i < v.len() ==> #[trigger] v[i]@ == w[i]@,
    decreases v.len(),
{
    if v.len() == 0 {
        if w.len() > 0 {
            assert(set.contains(w[0]@));
        }
    } else if w.len() == 0 {
        assert(set.contains(v[0]@));
    } else {
        let x = v[0]@;
        let y = w[0]@;
        assert(set.contains(x));
        assert(set.contains(y));
        let i = choose|i: int| 0 <= i < v.len() && #[trigger] v[i]@ == y;
        let j = choose|j: int| 0 <= j < w.len() && #[trigger] w[j]@ == x;
        if x != y {
            assert(i != 0 && j != 0);
            assert(lex_lt(v[0]@, v[i]@));
            assert(lex_lt(w[0]@, w[j]@));
            lemma_lex_total(x, y);
        }
        let rest = set.remove(x);
        let v2 = v.drop_first();
        let w2 = w.drop_first();
        assert forall|k: int| 0 <= k < v2.len() implies rest.contains(#[trigger] v2[k]@) by {
            lemma_sorted_distinct(v, 0, k + 1);
        }
        assert forall|k: int| 0 <= k < w2.len() implies rest.contains(#[trigger] w2[k]@) by {
            lemma_sorted_distinct(w, 0, k + 1);
        }
        assert forall|z: Seq<char>| rest.contains(z) implies exists|k: int| 0 <= k < v2.len() && #[trigger] v2[k]@ == z by {
            let k = choose|k: int| 0 <= k < v.len() && #[trigger] v[k]@ == z;
            assert(v2[k - 1]@ == z);
        }
        assert forall|z: Seq<char>| rest.contains(z) implies exists|k: int| 0 <= k < w2.len() && #[trigger] w2[k]@ == z by {
            let k = choose|k: int| 0 <= k < w.len() && #[trigger] w[k]@ == z;
            assert(w2[k - 1]@ == z);
        }
        assert(strictly_sorted(v2));
        assert(strictly_sorted(w2));
        lemma_listing_unique(v2, w2, rest);
        assert forall|k: int| 0 <= k < v.len() implies #[trigger] v[k]@ == w[k]@ by {
            if k > 0 {
                assert(v[k] == v2[k - 1] && w[k] == w2[k - 1]);
            }
        }
    }
}

/// The character of decimal digit `d`.
pub open spec fn digit_char(d: int) -> char {
    (48 + d) as char
}

/// The decimal notation of `n`, without leading zeros.
pub open spec fn decimal(n: nat) -> Seq<char>
    decreases n,
{
    if n < 10 {
        seq![digit_char(n as int)]
    } else {
        decimal(n / 10).push(digit_char((n % 10) as int))
    }
}

/// A time of `secs` seconds as minutes and two-digit seconds, such as `3:07`.
pub open spec fn time_text(secs: nat) -> Seq<char> {
    let rest = secs % 60;
    decimal(secs / 60) + seq![':'] + (if rest < 10 {
        seq!['0']
    } else {
        Seq::empty()
    }) + decimal(rest)
}

/// The number a string of decimal digits stands for.
pub open spec fn digits_value(s: Seq<char>) -> int
    decreases s.len(),
{
    if s.len() == 0 {
        0
    } else {
        digits_value(s.drop_last()) * 10 + (s.last() as int - 48)
    }
}

/// The decimal notation of `n` is made of digits, reads back as `n`, and
/// starts with a zero only for zero itself.
pub proof fn lemma_decimal_reads_back(n: nat)
    ensures
        decimal(n).len() >= 1,
        forall|i: int| 0 <= i < decimal(n).len() ==> '0' <= #[trigger] decimal(n)[i] <= '9',
        digits_value(decimal(n)) == n,
        decimal(n)[0] == '0' ==> n == 0,
    decreases n,
{
    let d = decimal(n);
    if n >= 10 {
        lemma_decimal_reads_back(n / 10);
        assert(d.drop_last() == decimal(n / 10));
        assert(d[0] == decimal(n / 10)[0]);
        assert(d.last() == digit_char((n % 10) as int));
        assert(digit_char((n % 10) as int) as int == 48 + n % 10);
        assert(digits_value(d) == digits_value(decimal(n / 10)) * 10 + (n % 10));
        assert((n / 10) * 10 + n % 10 == n);
        assert(digits_value(d) == n);
    } else {
        assert(digit_char(n as int) as int == 48 + n);
        assert(d.drop_last() =~= Seq::<char>::empty());
        assert(d.last() == digit_char(n as int));
        assert(digits_value(d.drop_last()) == 0);
        assert(digits_value(d) == n);
    }
}

/// Numbers from 10 to 99 have two digits.
pub proof fn lemma_two_digits(n: nat)
    requires
        10 <= n < 100,
    ensures
        decimal(n) == seq![digit_char(n as int / 10), digit_char(n as int % 10)],
{
    assert(decimal(n / 10) == seq![digit_char(n as int / 10)]);
    assert(decimal(n) =~= seq![digit_char(n as int / 10), digit_char(n as int % 10)]);
}

/// A play time reads as the minutes in decimal, a colon, and exactly two
/// digits of seconds: the tens and the units of `secs % 60`.
pub proof fn lemma_time_text_shape(secs: nat)
    ensures
        time_text(secs) == decimal(secs / 60) + seq![':', digit_char((secs % 60) as int / 10), digit_char((secs % 60) as int % 10)],
        time_text(secs).len() == decimal(secs / 60).len() + 3,
{
    let rest = secs % 60;
    let m = decimal(secs / 60);
    if rest < 10 {
        assert(decimal(rest) == seq![digit_char(rest as int)]);
        assert(digit_char(rest as int / 10) == '0');
        assert(time_text(secs) =~= m + seq![':', digit_char(rest as int / 10), digit_char(rest as int % 10)]);
    } else {
        lemma_two_digits(rest);
        assert(time_text(secs) =~= m + seq![':', digit_char(rest as int / 10), digit_char(rest as int % 10)]);
    }
}

/// Strings are ordered by their first difference: a proper prefix comes
/// first, and otherwise the one with the smaller character at the first
/// position where they differ.
pub proof fn lemma_lex_first_difference(a: Seq<char>, b: Seq<char>, k: int)
    requires
        0 <= k <= a.len(),
        k <= b.len(),
        a.take(k) == b.take(k),
        k == a.len() || k == b.len() || a[k] != b[k],
    ensures
        lex_lt(a, b) == ((k == a.len() && k < b.len()) || (k < a.len() && k < b.len() && a[k] < b[k])),
    decreases k,
{
    if k > 0 {
        assert(a[0] == a.take(k)[0] && b[0] == b.take(k)[0]);
        assert(a.drop_first().take(k - 1) =~= a.take(k).drop_first());
        assert(b.drop_first().take(k - 1) =~= b.take(k).drop_first());
        lemma_lex_first_difference(a.drop_first(), b.drop_first(), k - 1);
    }
}

fn digit_str(d: u64) -> (s: &'static str)
    requires
        d < 10,
    ensures
        s@ == seq![digit_char(d as int)],
{
    match d {
        0 => {
            proof {
                reveal_strlit("0");
            }
            "0"
        },
        1 => {
            proof {
                reveal_strlit("1");
            }
            "1"
        },
        2 => {
            proof {
                reveal_strlit("2");
            }
            "2"
        },
        3 => {
            proof {
                reveal_strlit("3");
            }
            "3"
        },
        4 => {
            proof {
                reveal_strlit("4");
            }
            "4"
        },
        5 => {
            proof {
                reveal_strlit("5");
            }
            "5"
        },
        6 => {
            proof {
                reveal_strlit("6");
            }
            "6"
        },
        7 => {
            proof {
                reveal_strlit("7");
            }
            "7"
        },
        8 => {
            proof {
                reveal_strlit("8");
            }
            "8"
        },
        _ => {
            proof {
                reveal_strlit("9");
            }
            "9"
        },
    }
}

/// The decimal notation of `n`.
pub fn decimal_string(n: u64) -> (s: String)
    ensures
        s@ == decimal(n as nat),
    decreases n,
{
    if n < 10 {
        String::from_str(digit_str(n))
    } else {
        let mut s = decimal_string(n / 10);
        s.append(digit_str(n % 10));
        s
    }
}

/// Formats a play time of `secs` seconds as minutes and two-digit seconds.
pub fn format_time(secs: u64) -> (s: String)
    ensures
        s@ == time_text(secs as nat),
{
    let mut s = decimal_string(secs / 60);
    proof {
        reveal_strlit(":");
        reveal_strlit("0");
    }
    s.append(":");
    let rest = secs % 60;
    if rest < 10 {
        s.append("0");
    }
    let tail = decimal_string(rest);
    s.append(tail.as_str());
    s
}

} // verus!

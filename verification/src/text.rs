//! Small operations on character sequences shared by the other modules.

use vstd::prelude::*;

verus! {

/// `p` is a prefix of `s`.
pub open spec fn is_prefix_of(p: Seq<char>, s: Seq<char>) -> bool {
    p.len() <= s.len() && s.take(p.len() as int) == p
}

/// `k` is the position of the first occurrence of `c` in `s`.
pub open spec fn is_first_index(s: Seq<char>, c: char, k: int) -> bool {
    &&& 0 <= k < s.len()
    &&& s[k] == c
    &&& forall|j: int| 0 <= j < k ==> s[j] != c
}

/// `s` contains the character `c`.
pub open spec fn contains_char(s: Seq<char>, c: char) -> bool {
    exists|k: int| 0 <= k < s.len() && s[k] == c
}

/// The position of the first occurrence of `c` in `s` (its length when absent).
pub open spec fn first_index(s: Seq<char>, c: char) -> int
    decreases s.len(),
{
    if s.len() == 0 {
        0
    } else if s[0] == c {
        0
    } else {
        1 + first_index(s.drop_first(), c)
    }
}

/// The part of an entity id before its first `.`: the entity's domain.
pub open spec fn domain_of(entity_id: Seq<char>) -> Seq<char> {
    entity_id.take(first_index(entity_id, '.'))
}

/// Characterises `first_index`: it is the first occurrence when there is one.
pub proof fn lemma_first_index(s: Seq<char>, c: char)
    ensures
        0 <= first_index(s, c) <= s.len(),
        forall|j: int| 0 <= j < first_index(s, c) ==> s[j] != c,
        first_index(s, c) < s.len() ==> s[first_index(s, c)] == c,
        contains_char(s, c) <==> first_index(s, c) < s.len(),
    decreases s.len(),
{
    if s.len() > 0 && s[0] != c {
        lemma_first_index(s.drop_first(), c);
        assert forall|j: int| 0 <= j < first_index(s, c) implies s[j] != c by {
            if j > 0 {
                assert(s[j] == s.drop_first()[j - 1]);
            }
        }
        if contains_char(s, c) {
            let k = choose|k: int| 0 <= k < s.len() && s[k] == c;
            assert(s.drop_first()[k - 1] == c);
        }
        if first_index(s, c) < s.len() {
            assert(s.drop_first()[first_index(s, c) - 1] == c);
        }
    }
}

/// The domain of an entity id `p.q`, where `p` holds no `.`, is `p`: the
/// text up to the first `.`, whatever follows it (other dots, underscores).
pub proof fn lemma_domain_of_dotted(p: Seq<char>, q: Seq<char>)
    requires
        !contains_char(p, '.'),
    ensures
        domain_of(p + seq!['.'] + q) == p,
{
    let s = p + seq!['.'] + q;
    lemma_first_index(s, '.');
    assert(s[p.len() as int] == '.');
    assert(contains_char(s, '.'));
    let k = first_index(s, '.');
    if k < p.len() {
        assert(p[k] == s[k]);
        assert(contains_char(p, '.'));
    }
    assert(k == p.len());
    assert(s.take(k) =~= p);
}

/// Whether `p` is a prefix of `s`.
pub fn starts_with(s: &str, p: &str) -> (b: bool)
    ensures
        b == is_prefix_of(p@, s@),
{
    let n: usize = s.unicode_len();
    let m: usize = p.unicode_len();
    if m > n {
        return false;
    }
    let mut i: usize = 0;
    while i < m
        invariant
            m == p@.len(),
            n == s@.len(),
            m <= n,
            i <= m,
            forall|j: int| 0 <= j < i ==> s@[j] == p@[j],
        decreases m - i,
    {
        if s.get_char(i) != p.get_char(i) {
            assert(s@.take(m as int)[i as int] != p@[i as int]);
            return false;
        }
        i += 1;
    }
    assert(s@.take(m as int) =~= p@);
    true
}

/// The position of the first `c` in `s`, or its length when there is none.
pub fn find_char(s: &str, c: char) -> (k: usize)
    ensures
        k == first_index(s@, c),
{
    proof {
        lemma_first_index(s@, c);
    }
    let n: usize = s.unicode_len();
    let mut i: usize = 0;
    while i < n
        invariant
            n == s@.len(),
            i <= n,
            forall|j: int| 0 <= j < i ==> s@[j] != c,
            0 <= first_index(s@, c) <= s@.len(),
            forall|j: int| 0 <= j < first_index(s@, c) ==> s@[j] != c,
            first_index(s@, c) < s@.len() ==> s@[first_index(s@, c)] == c,
        decreases n - i,
    {
        if s.get_char(i) == c {
            return i;
        }
        i += 1;
    }
    i
}

/// The domain of an entity id: the text before its first `.`.
pub fn domain(entity_id: &str) -> (d: String)
    ensures
        d@ == domain_of(entity_id@),
{
    let k: usize = find_char(entity_id, '.');
    proof {
        lemma_first_index(entity_id@, '.');
    }
    String::from_str(entity_id.substring_char(0, k))
}

/// Whether `a` and `b` hold the same text.
pub fn str_eq(a: &str, b: &str) -> (r: bool)
    ensures
        r == (a@ == b@),
{
    let n: usize = a.unicode_len();
    let m: usize = b.unicode_len();
    if n != m {
        return false;
    }
    let mut i: usize = 0;
    while i < n
        invariant
            n == a@.len(),
            m == b@.len(),
            n == m,
            i <= n,
            forall|j: int| 0 <= j < i ==> a@[j] == b@[j],
        decreases n - i,
    {
        if a.get_char(i) != b.get_char(i) {
            return false;
        }
        i += 1;
    }
    assert(a@ =~= b@);
    true
}

/// The concatenation of `a` and `b`.
pub fn concat(a: &str, b: &str) -> (r: String)
    ensures
        r@ == a@ + b@,
{
    let mut r = String::from_str(a);
    r.append(b);
    r
}

/// The decimal digit for `d` (from 0 to 9).
pub open spec fn digit_char(d: int) -> char {
    if d == 0 {
        '0'
    } else if d == 1 {
        '1'
    } else if d == 2 {
        '2'
    } else if d == 3 {
        '3'
    } else if d == 4 {
        '4'
    } else if d == 5 {
        '5'
    } else if d == 6 {
        '6'
    } else if d == 7 {
        '7'
    } else if d == 8 {
        '8'
    } else {
        '9'
    }
}

/// The decimal text of `n`, without leading zeros.
pub open spec fn decimal_of(n: nat) -> Seq<char>
    decreases n,
{
    if n < 10 {
        seq![digit_char(n as int)]
    } else {
        decimal_of(n / 10).push(digit_char((n % 10) as int))
    }
}

fn digit_text(d: u64) -> (t: &'static str)
    requires
        d < 10,
    ensures
        t@ == seq![digit_char(d as int)],
{
    proof {
        reveal_strlit("0");
        reveal_strlit("1");
        reveal_strlit("2");
        reveal_strlit("3");
        reveal_strlit("4");
        reveal_strlit("5");
        reveal_strlit("6");
        reveal_strlit("7");
        reveal_strlit("8");
        reveal_strlit("9");
    }
    if d == 0 {
        "0"
    } else if d == 1 {
        "1"
    } else if d == 2 {
        "2"
    } else if d == 3 {
        "3"
    } else if d == 4 {
        "4"
    } else if d == 5 {
        "5"
    } else if d == 6 {
        "6"
    } else if d == 7 {
        "7"
    } else if d == 8 {
        "8"
    } else {
        "9"
    }
}

/// The decimal text of `n`.
pub fn decimal(n: u64) -> (t: String)
    ensures
        t@ == decimal_of(n as nat),
    decreases n,
{
    if n < 10 {
        String::from_str(digit_text(n))
    } else {
        let mut t = decimal(n / 10);
        t.append(digit_text(n % 10));
        t
    }
}

/// The text of a boolean: `true` or `false`.
pub open spec fn bool_text(b: bool) -> Seq<char> {
    if b {
        "true"@
    } else {
        "false"@
    }
}

/// The text of a boolean.
pub fn bool_string(b: bool) -> (t: String)
    ensures
        t@ == bool_text(b),
{
    if b {
        String::from_str("true")
    } else {
        String::from_str("false")
    }
}

/// The debug text of a string, as `format!("{:?}", ..)` writes it: the
/// string quoted, with quotes, backslashes and control characters escaped.
pub uninterp spec fn debug_str_text(s: Seq<char>) -> Seq<char>;

/// Wraps `format!("{:?}", ..)` on a string.
#[verifier::external_body]
pub fn debug_str(s: &str) -> (t: String)
    ensures
        t@ == debug_str_text(s@),
{
    format!("{:?}", s)
}

/// The texts joined with `, ` between them.
pub open spec fn comma_joined(items: Seq<Seq<char>>) -> Seq<char>
    decreases items.len(),
{
    if items.len() == 0 {
        Seq::empty()
    } else if items.len() == 1 {
        items[0]
    } else {
        comma_joined(items.drop_last()) + ", "@ + items.last()
    }
}

/// Appending one more text to a joined list.
pub proof fn lemma_comma_joined_push(items: Seq<Seq<char>>, t: Seq<char>)
    ensures
        comma_joined(items.push(t)) == if items.len() == 0 {
            t
        } else {
            comma_joined(items) + ", "@ + t
        },
{
    assert(items.push(t).drop_last() =~= items);
    if items.len() == 0 {
        assert(items.push(t)[0] == t);
    }
}

/// The texts of a list of strings.
pub open spec fn texts_of(v: Seq<String>) -> Seq<Seq<char>> {
    v.map_values(|s: String| s@)
}

/// The debug text of a list of strings: `[` and `]` around the debug text of
/// each string, joined with `, `.
pub open spec fn debug_list_of(items: Seq<Seq<char>>) -> Seq<char> {
    "["@ + comma_joined(items.map_values(|t: Seq<char>| debug_str_text(t))) + "]"@
}

/// The debug text of a list of strings (see `debug_list_of`).
pub fn debug_list(items: &Vec<String>) -> (t: String)
    ensures
        t@ == debug_list_of(texts_of(items@)),
{
    let ghost texts = texts_of(items@).map_values(|t: Seq<char>| debug_str_text(t));
    let mut body = String::new();
    let mut i: usize = 0;
    while i < items.len()
        invariant
            i <= items@.len(),
            texts == texts_of(items@).map_values(|t: Seq<char>| debug_str_text(t)),
            body@ == comma_joined(texts.take(i as int)),
        decreases items@.len() - i,
    {
        let d = debug_str(items[i].as_str());
        proof {
            assert(texts.take(i + 1) =~= texts.take(i as int).push(d@));
            lemma_comma_joined_push(texts.take(i as int), d@);
        }
        if i > 0 {
            body.append(", ");
        } else {
            assert(body@ =~= Seq::<char>::empty());
        }
        body.append(d.as_str());
        i += 1;
    }
    assert(texts.take(items@.len() as int) =~= texts);
    let mut t = String::from_str("[");
    t.append(body.as_str());
    t.append("]");
    t
}

} // verus!

//! The JSON text of a search form, a list of name and value pairs written as
//! an array of two-string arrays with no spaces, and the fact that two
//! different forms never get the same text.
use vstd::prelude::*;

verus! {

/// A hexadecimal digit, lower case.
pub open spec fn hex_digit(n: int) -> char {
    if n == 0 { '0' }
    else if n == 1 { '1' }
    else if n == 2 { '2' }
    else if n == 3 { '3' }
    else if n == 4 { '4' }
    else if n == 5 { '5' }
    else if n == 6 { '6' }
    else if n == 7 { '7' }
    else if n == 8 { '8' }
    else if n == 9 { '9' }
    else if n == 10 { 'a' }
    else if n == 11 { 'b' }
    else if n == 12 { 'c' }
    else if n == 13 { 'd' }
    else if n == 14 { 'e' }
    else { 'f' }
}

/// How one character is written inside a JSON string: the quote and the
/// backslash behind a backslash, the five controls that have a letter by
/// their letter, the other controls below U+0020 as `\u00` and two hex
/// digits, everything else as itself.
pub open spec fn escaped_char(c: char) -> Seq<char> {
    if c == '"' {
        seq!['\\', '"']
    } else if c == '\\' {
        seq!['\\', '\\']
    } else if c == '\u{8}' {
        seq!['\\', 'b']
    } else if c == '\t' {
        seq!['\\', 't']
    } else if c == '\n' {
        seq!['\\', 'n']
    } else if c == '\u{c}' {
        seq!['\\', 'f']
    } else if c == '\r' {
        seq!['\\', 'r']
    } else if (c as u32) < 0x20 {
        seq!['\\', 'u', '0', '0', hex_digit((c as u32) as int / 16), hex_digit((c as u32) as int % 16)]
    } else {
        seq![c]
    }
}

/// The characters of `s`, each as [`escaped_char`] writes it.
pub open spec fn escaped(s: Seq<char>) -> Seq<char>
    decreases s.len(),
{
    if s.len() == 0 {
        Seq::empty()
    } else {
        escaped_char(s[0]) + escaped(s.drop_first())
    }
}

/// `s` as a JSON string.
pub open spec fn json_string(s: Seq<char>) -> Seq<char> {
    seq!['"'] + escaped(s) + seq!['"']
}

/// A pair as a JSON array of its two strings.
pub open spec fn json_pair(p: (Seq<char>, Seq<char>)) -> Seq<char> {
    seq!['['] + json_string(p.0) + seq![','] + json_string(p.1) + seq![']']
}

/// The pairs as JSON arrays, separated by commas.
pub open spec fn json_items(form: Seq<(Seq<char>, Seq<char>)>) -> Seq<char>
    decreases form.len(),
{
    if form.len() == 0 {
        Seq::empty()
    } else if form.len() == 1 {
        json_pair(form[0])
    } else {
        json_pair(form[0]) + seq![','] + json_items(form.drop_first())
    }
}

/// A form as compact JSON: an array of `[name, value]` arrays.
pub open spec fn json_of_form(form: Seq<(Seq<char>, Seq<char>)>) -> Seq<char> {
    seq!['['] + json_items(form) + seq![']']
}

proof fn lemma_hex_digit_injective(a: int, b: int)
    requires
        0 <= a < 16,
        0 <= b < 16,
        hex_digit(a) == hex_digit(b),
    ensures
        a == b,
{
}

/// Where two written characters start the same text, they are the same
/// character and the rest is the same.
proof fn lemma_escaped_char_prefix(c1: char, c2: char, x1: Seq<char>, x2: Seq<char>)
    requires
        escaped_char(c1) + x1 == escaped_char(c2) + x2,
    ensures
        c1 == c2,
        x1 == x2,
{
    let e1 = escaped_char(c1);
    let e2 = escaped_char(c2);
    let w = e1 + x1;
    assert(w[0] == e1[0] && w[0] == e2[0]);
    if e1.len() == 1 {
        assert(c1 == e1[0]);
        assert(c2 == c1);
    } else {
        assert(e2.len() >= 2);
        assert(w[1] == e1[1] && w[1] == e2[1]);
        if e1[1] == 'u' {
            assert(e1.len() == 6 && e2.len() == 6);
            assert(w[4] == e1[4] && w[4] == e2[4]);
            assert(w[5] == e1[5] && w[5] == e2[5]);
            let n1 = c1 as u32;
            let n2 = c2 as u32;
            lemma_hex_digit_injective(n1 as int / 16, n2 as int / 16);
            lemma_hex_digit_injective(n1 as int % 16, n2 as int % 16);
            assert(n1 == n2);
        }
        assert(c1 == c2);
    }
    assert(x1 =~= w.skip(e1.len() as int));
    assert(x2 =~= (e2 + x2).skip(e2.len() as int));
}

/// An escaped string followed by a quote ends exactly at that quote.
proof fn lemma_escaped_prefix(s1: Seq<char>, s2: Seq<char>, r1: Seq<char>, r2: Seq<char>)
    requires
        escaped(s1) + (seq!['"'] + r1) == escaped(s2) + (seq!['"'] + r2),
    ensures
        s1 == s2,
        r1 == r2,
    decreases s1.len(),
{
    let q = seq!['"'];
    let w = escaped(s1) + (q + r1);
    if s1.len() == 0 {
        assert(escaped(s1) =~= Seq::<char>::empty());
        assert(w =~= q + r1);
        if s2.len() > 0 {
            let e2 = escaped_char(s2[0]);
            assert(escaped(s2) == e2 + escaped(s2.drop_first()));
            assert(w[0] == e2[0]);
            assert(false);
        }
        assert(escaped(s2) =~= Seq::<char>::empty());
        assert(r1 =~= w.drop_first());
        assert(r2 =~= (q + r2).drop_first());
        assert(s1 =~= s2);
    } else if s2.len() == 0 {
        let e1 = escaped_char(s1[0]);
        assert(escaped(s1) == e1 + escaped(s1.drop_first()));
        assert(escaped(s2) =~= Seq::<char>::empty());
        assert(w[0] == e1[0]);
        assert(w == q + r2);
        assert(false);
    } else {
        let t1 = s1.drop_first();
        let t2 = s2.drop_first();
        assert(escaped(s1) == escaped_char(s1[0]) + escaped(t1));
        assert(escaped(s2) == escaped_char(s2[0]) + escaped(t2));
        assert(w =~= escaped_char(s1[0]) + (escaped(t1) + (q + r1)));
        assert(w =~= escaped_char(s2[0]) + (escaped(t2) + (q + r2)));
        lemma_escaped_char_prefix(s1[0], s2[0], escaped(t1) + (q + r1), escaped(t2) + (q + r2));
        lemma_escaped_prefix(t1, t2, r1, r2);
        assert(s1 =~= seq![s1[0]] + t1);
        assert(s2 =~= seq![s2[0]] + t2);
    }
}

proof fn lemma_string_prefix(a1: Seq<char>, a2: Seq<char>, x1: Seq<char>, x2: Seq<char>)
    requires
        json_string(a1) + x1 == json_string(a2) + x2,
    ensures
        a1 == a2,
        x1 == x2,
{
    let q = seq!['"'];
    let w = json_string(a1) + x1;
    assert(w.drop_first() =~= escaped(a1) + (q + x1));
    assert((json_string(a2) + x2).drop_first() =~= escaped(a2) + (q + x2));
    lemma_escaped_prefix(a1, a2, x1, x2);
}

proof fn lemma_pair_prefix(
    p1: (Seq<char>, Seq<char>),
    p2: (Seq<char>, Seq<char>),
    x1: Seq<char>,
    x2: Seq<char>,
)
    requires
        json_pair(p1) + x1 == json_pair(p2) + x2,
    ensures
        p1 == p2,
        x1 == x2,
{
    let w1 = json_pair(p1) + x1;
    let w2 = json_pair(p2) + x2;
    let y1 = seq![','] + json_string(p1.1) + (seq![']'] + x1);
    let y2 = seq![','] + json_string(p2.1) + (seq![']'] + x2);
    assert(w1.drop_first() =~= json_string(p1.0) + y1);
    assert(w2.drop_first() =~= json_string(p2.0) + y2);
    lemma_string_prefix(p1.0, p2.0, y1, y2);
    assert(y1.drop_first() =~= json_string(p1.1) + (seq![']'] + x1));
    assert(y2.drop_first() =~= json_string(p2.1) + (seq![']'] + x2));
    lemma_string_prefix(p1.1, p2.1, seq![']'] + x1, seq![']'] + x2);
    assert(x1 =~= (seq![']'] + x1).drop_first());
    assert(x2 =~= (seq![']'] + x2).drop_first());
}

/// What follows the first pair of a nonempty form's items and their closing
/// bracket.
spec fn items_rest(form: Seq<(Seq<char>, Seq<char>)>) -> Seq<char> {
    if form.len() == 1 {
        seq![']']
    } else {
        seq![','] + json_items(form.drop_first()) + seq![']']
    }
}

proof fn lemma_items_split(form: Seq<(Seq<char>, Seq<char>)>)
    requires
        form.len() >= 1,
    ensures
        json_items(form) + seq![']'] == json_pair(form[0]) + items_rest(form),
        (json_items(form) + seq![']'])[0] == '[',
{
    if form.len() == 1 {
        assert(json_items(form) == json_pair(form[0]));
    } else {
        assert(json_items(form) == json_pair(form[0]) + seq![','] + json_items(form.drop_first()));
        assert(json_items(form) + seq![']'] =~= json_pair(form[0]) + items_rest(form));
    }
    assert((json_pair(form[0]) + items_rest(form))[0] == json_pair(form[0])[0]);
}

proof fn lemma_items_injective(f1: Seq<(Seq<char>, Seq<char>)>, f2: Seq<(Seq<char>, Seq<char>)>)
    requires
        json_items(f1) + seq![']'] == json_items(f2) + seq![']'],
    ensures
        f1 == f2,
    decreases f1.len(),
{
    let w = json_items(f1) + seq![']'];
    if f1.len() == 0 {
        assert(w =~= seq![']']);
        if f2.len() > 0 {
            lemma_items_split(f2);
            assert(false);
        }
        assert(f1 =~= f2);
    } else if f2.len() == 0 {
        lemma_items_split(f1);
        assert(json_items(f2) + seq![']'] =~= seq![']']);
        assert(false);
    } else {
        lemma_items_split(f1);
        lemma_items_split(f2);
        lemma_pair_prefix(f1[0], f2[0], items_rest(f1), items_rest(f2));
        let r1 = items_rest(f1);
        let r2 = items_rest(f2);
        if f1.len() == 1 && f2.len() > 1 {
            assert(r1[0] == ']' && r2[0] == ',');
            assert(false);
        } else if f1.len() > 1 && f2.len() == 1 {
            assert(r1[0] == ',' && r2[0] == ']');
            assert(false);
        } else if f1.len() > 1 {
            assert(r1.drop_first() =~= json_items(f1.drop_first()) + seq![']']);
            assert(r2.drop_first() =~= json_items(f2.drop_first()) + seq![']']);
            lemma_items_injective(f1.drop_first(), f2.drop_first());
            assert(f1 =~= seq![f1[0]] + f1.drop_first());
            assert(f2 =~= seq![f2[0]] + f2.drop_first());
        } else {
            assert(f1 =~= f2);
        }
    }
}

/// Two forms with the same JSON text are the same form.
pub proof fn law_form_json_is_injective(f1: Seq<(Seq<char>, Seq<char>)>, f2: Seq<(Seq<char>, Seq<char>)>)
    requires
        json_of_form(f1) == json_of_form(f2),
    ensures
        f1 == f2,
{
    assert(json_of_form(f1).drop_first() =~= json_items(f1) + seq![']']);
    assert(json_of_form(f2).drop_first() =~= json_items(f2) + seq![']']);
    lemma_items_injective(f1, f2);
}

} // verus!

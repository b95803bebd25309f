//! Text helpers for the emitter: lexicographic ordering of names, joining of
//! name segments, decimal rendering of widths and ordinals, mangling of type
//! paths, and a line-oriented writer with indentation.

use vstd::prelude::*;

verus! {

/// Strict lexicographic order on character sequences, by code point.
pub open spec fn lex_lt(a: Seq<char>, b: Seq<char>) -> bool
    decreases a.len(),
{
    if b.len() == 0 {
        false
    } else if a.len() == 0 {
        true
    } else if (a[0] as int) < (b[0] as int) {
        true
    } else if a[0] == b[0] {
        lex_lt(a.skip(1), b.skip(1))
    } else {
        false
    }
}

pub proof fn lemma_lex_irrefl(a: Seq<char>)
    ensures
        !lex_lt(a, a),
    decreases a.len(),
{
    if a.len() > 0 {
        lemma_lex_irrefl(a.skip(1));
    }
}

pub proof fn lemma_lex_trichotomy(a: Seq<char>, b: Seq<char>)
    ensures
        lex_lt(a, b) || lex_lt(b, a) || a == b,
    decreases a.len(),
{
    if a.len() == 0 && b.len() == 0 {
        assert(a =~= b);
    } else if a.len() > 0 && b.len() > 0 && a[0] == b[0] {
        lemma_lex_trichotomy(a.skip(1), b.skip(1));
        if a.skip(1) == b.skip(1) {
            assert(a =~= seq![a[0]] + a.skip(1));
            assert(b =~= seq![b[0]] + b.skip(1));
        }
    }
}

pub proof fn lemma_lex_asym(a: Seq<char>, b: Seq<char>)
    ensures
        lex_lt(a, b) ==> !lex_lt(b, a),
    decreases a.len(),
{
    if a.len() > 0 && b.len() > 0 && a[0] == b[0] {
        lemma_lex_asym(a.skip(1), b.skip(1));
    }
}

pub proof fn lemma_lex_trans(a: Seq<char>, b: Seq<char>, c: Seq<char>)
    ensures
        lex_lt(a, b) && lex_lt(b, c) ==> lex_lt(a, c),
    decreases a.len(),
{
    if a.len() > 0 && b.len() > 0 && c.len() > 0 {
        lemma_lex_trans(a.skip(1), b.skip(1), c.skip(1));
    }
}

/// With the first `i` characters pairwise equal, the order is decided by the
/// remainders.
proof fn lemma_lex_skip(a: Seq<char>, b: Seq<char>, i: int)
    requires
        0 <= i <= a.len(),
        i <= b.len(),
        forall|j: int| 0 <= j < i ==> a[j] == b[j],
    ensures
        lex_lt(a, b) == lex_lt(a.skip(i), b.skip(i)),
    decreases i,
{
    if i > 0 {
        assert(a.skip(1).skip(i - 1) =~= a.skip(i));
        assert(b.skip(1).skip(i - 1) =~= b.skip(i));
        lemma_lex_skip(a.skip(1), b.skip(1), i - 1);
    } else {
        assert(a.skip(0) =~= a);
        assert(b.skip(0) =~= b);
    }
}

/// Decides `lex_lt` on two string slices.
pub fn str_lex_lt(a: &str, b: &str) -> (r: bool)
    ensures
        r == lex_lt(a@, b@),
{
    let alen = a.unicode_len();
    let blen = b.unicode_len();
    let mut i: usize = 0;
    loop
        invariant
            i <= alen,
            i <= blen,
            alen == a@.len(),
            blen == b@.len(),
            forall|j: int| 0 <= j < i ==> a@[j] == b@[j],
        decreases alen - i,
    {
        proof {
            lemma_lex_skip(a@, b@, i as int);
        }
        if i >= blen {
            return false;
        }
        if i >= alen {
            return true;
        }
        let ca = a.get_char(i);
        let cb = b.get_char(i);
        if (ca as u32) < (cb as u32) {
            return true;
        }
        if ca != cb {
            return false;
        }
        i = i + 1;
    }
}

/// Decides equality of two string slices.
pub fn str_eq(a: &str, b: &str) -> (r: bool)
    ensures
        r == (a@ == b@),
{
    proof {
        lemma_lex_trichotomy(a@, b@);
        lemma_lex_irrefl(a@);
        lemma_lex_irrefl(b@);
    }
    let lt = str_lex_lt(a, b);
    let gt = str_lex_lt(b, a);
    !lt && !gt
}

/// The segments joined with the separator between each adjacent pair.
pub open spec fn join_with(parts: Seq<Seq<char>>, sep: Seq<char>) -> Seq<char>
    decreases parts.len(),
{
    if parts.len() == 0 {
        Seq::empty()
    } else if parts.len() == 1 {
        parts[0]
    } else {
        join_with(parts.drop_last(), sep) + sep + parts.last()
    }
}

/// Joins the given strings with the separator.
pub fn join_strings(parts: &Vec<String>, sep: &str) -> (r: String)
    ensures
        r@ == join_with(parts.deep_view(), sep@),
{
    let mut out = String::new();
    let mut i: usize = 0;
    while i < parts.len()
        invariant
            i <= parts@.len(),
            out@ == join_with(parts.deep_view().take(i as int), sep@),
        decreases parts@.len() - i,
    {
        if i > 0 {
            out.append(sep);
        }
        out.append(parts[i].as_str());
        proof {
            let pv = parts.deep_view();
            assert(pv.take(i + 1).drop_last() =~= pv.take(i as int));
            assert(pv.take(i + 1).last() == pv[i as int]);
            assert(pv[i as int] == parts@[i as int]@);
        }
        i = i + 1;
    }
    proof {
        assert(parts.deep_view().take(parts@.len() as int) =~= parts.deep_view());
    }
    out
}

/// The character for one decimal digit.
pub open spec fn digit_char(d: int) -> char {
    if d == 0 {
        '0'
    } else if d == 1 {
        '1'
    } else if d == 2 {
        '2'
    } else if d == 3 {
        '3'
    } else if d == 4 {
        '4'
    } else if d == 5 {
        '5'
    } else if d == 6 {
        '6'
    } else if d == 7 {
        '7'
    } else if d == 8 {
        '8'
    } else {
        '9'
    }
}

/// The decimal rendering of a number, most significant digit first.
pub open spec fn dec_digits(n: nat) -> Seq<char>
    decreases n,
{
    if n < 10 {
        seq![digit_char(n as int)]
    } else {
        dec_digits(n / 10).push(digit_char((n % 10) as int))
    }
}

/// One decimal digit as a string slice.
fn digit_str(d: usize) -> (r: &'static str)
    requires
        d < 10,
    ensures
        r@ == seq![digit_char(d as int)],
{
    proof {
        reveal_strlit("0");
        reveal_strlit("1");
        reveal_strlit("2");
        reveal_strlit("3");
        reveal_strlit("4");
        reveal_strlit("5");
        reveal_strlit("6");
        reveal_strlit("7");
        reveal_strlit("8");
        reveal_strlit("9");
        assert("0"@ =~= seq!['0']);
        assert("1"@ =~= seq!['1']);
        assert("2"@ =~= seq!['2']);
        assert("3"@ =~= seq!['3']);
        assert("4"@ =~= seq!['4']);
        assert("5"@ =~= seq!['5']);
        assert("6"@ =~= seq!['6']);
        assert("7"@ =~= seq!['7']);
        assert("8"@ =~= seq!['8']);
        assert("9"@ =~= seq!['9']);
    }
    match d {
        0 => "0",
        1 => "1",
        2 => "2",
        3 => "3",
        4 => "4",
        5 => "5",
        6 => "6",
        7 => "7",
        8 => "8",
        _ => "9",
    }
}

/// Renders a number in decimal.
pub fn usize_to_string(n: usize) -> (r: String)
    ensures
        r@ == dec_digits(n as nat),
    decreases n,
{
    if n < 10 {
        let mut out = String::new();
        out.append(digit_str(n));
        out
    } else {
        let mut out = usize_to_string(n / 10);
        out.append(digit_str(n % 10));
        proof {
            assert(out@ =~= dec_digits((n / 10) as nat).push(digit_char((n % 10) as int)));
        }
        out
    }
}

/// The sequence with every adjacent pair of colons replaced by one dollar
/// sign, scanning from the left.
pub open spec fn flatten_type_sep(s: Seq<char>) -> Seq<char>
    decreases s.len(),
{
    if s.len() >= 2 && s[0] == ':' && s[1] == ':' {
        seq!['$'] + flatten_type_sep(s.skip(2))
    } else if s.len() == 0 {
        s
    } else {
        seq![s[0]] + flatten_type_sep(s.skip(1))
    }
}

/// Replaces each type-path separator with the join token.
pub fn flatten_type_separator(s: &str) -> (r: String)
    ensures
        r@ == flatten_type_sep(s@),
{
    let len = s.unicode_len();
    let mut out = String::new();
    let mut i: usize = 0;
    proof {
        assert(s@.skip(0) =~= s@);
    }
    while i < len
        invariant
            i <= len,
            len == s@.len(),
            flatten_type_sep(s@) == out@ + flatten_type_sep(s@.skip(i as int)),
        decreases len - i,
    {
        let ghost rest = s@.skip(i as int);
        let ghost out0 = out@;
        proof {
            assert(rest.len() == len - i);
            assert(rest[0] == s@[i as int]);
        }
        if i + 1 < len && s.get_char(i) == ':' && s.get_char(i + 1) == ':' {
            out.append("$");
            proof {
                reveal_strlit("$");
                assert("$"@ =~= seq!['$']);
                assert(rest[1] == s@[i + 1]);
                assert(rest.skip(2) =~= s@.skip(i + 2));
                assert(flatten_type_sep(rest) == seq!['$'] + flatten_type_sep(s@.skip(i + 2)));
                assert(out@ + flatten_type_sep(s@.skip(i + 2)) =~= out0 + flatten_type_sep(rest));
            }
            i = i + 2;
        } else {
            let piece = s.substring_char(i, i + 1);
            out.append(piece);
            proof {
                assert(piece@ =~= seq![s@[i as int]]);
                if rest.len() >= 2 {
                    assert(rest[1] == s@[i + 1]);
                }
                assert(rest.skip(1) =~= s@.skip(i + 1));
                assert(flatten_type_sep(rest) == seq![rest[0]] + flatten_type_sep(s@.skip(i + 1)));
                assert(out@ + flatten_type_sep(s@.skip(i + 1)) =~= out0 + flatten_type_sep(rest));
            }
            i = i + 1;
        }
    }
    proof {
        assert(s@.skip(len as int) =~= Seq::<char>::empty());
        assert(out@ + Seq::<char>::empty() =~= out@);
    }
    out
}

/// Unfolds `deep_view` of a vector into its pointwise form.
pub proof fn lemma_vec_deep_view<T: DeepView>(v: Vec<T>)
    ensures
        v.deep_view().len() == v@.len(),
        forall|i: int| 0 <= i < v@.len() ==> v.deep_view()[i] == v@[i].deep_view(),
{
}

/// A field-wise copy of a string vector, model-preserving.
pub fn clone_strings(v: &Vec<String>) -> (r: Vec<String>)
    ensures
        r.deep_view() == v.deep_view(),
{
    let mut out: Vec<String> = Vec::new();
    let mut i: usize = 0;
    proof {
        assert(out.deep_view() =~= v.deep_view().take(0));
    }
    while i < v.len()
        invariant
            i <= v@.len(),
            out.deep_view() == v.deep_view().take(i as int),
        decreases v@.len() - i,
    {
        let ghost dv0 = out.deep_view();
        out.push(v[i].clone());
        proof {
            lemma_vec_deep_view(out);
            lemma_vec_deep_view(*v);
            assert(out.deep_view() =~= dv0.push(v@[i as int]@));
            assert(v.deep_view().take(i + 1) =~= dv0.push(v@[i as int]@));
        }
        i = i + 1;
    }
    proof {
        assert(v.deep_view().take(v@.len() as int) =~= v.deep_view());
    }
    out
}

/// Concatenation of character sequences associates.
pub proof fn lemma_cat_assoc(a: Seq<char>, b: Seq<char>, c: Seq<char>)
    ensures
        (a + b) + c == a + (b + c),
{
    assert((a + b) + c =~= a + (b + c));
}

/// The empty sequence is a right identity of concatenation.
pub proof fn lemma_cat_empty(a: Seq<char>)
    ensures
        a + Seq::<char>::empty() == a,
{
    assert(a + Seq::<char>::empty() =~= a);
}

/// A run of spaces.
pub open spec fn spaces(n: nat) -> Seq<char>
    decreases n,
{
    if n == 0 {
        Seq::empty()
    } else {
        spaces((n - 1) as nat).push(' ')
    }
}

pub proof fn lemma_spaces_add(a: nat, b: nat)
    ensures
        spaces(a + b) == spaces(a) + spaces(b),
    decreases b,
{
    if b == 0 {
        assert(spaces(a) + spaces(0) =~= spaces(a));
    } else {
        lemma_spaces_add(a, (b - 1) as nat);
        assert(spaces(a) + spaces(b) =~= (spaces(a) + spaces((b - 1) as nat)).push(' '));
    }
}

/// A line-oriented text writer: each added line is prefixed by the current
/// indentation and followed by one newline character.
pub struct CodeWriter {
    indent: usize,
    text: String,
}

/// What one `add` call appends: indentation, the line, a newline.
pub open spec fn written_line(indent: nat, line: Seq<char>) -> Seq<char> {
    spaces(4 * indent) + line + seq!['\n']
}

impl CodeWriter {
    pub closed spec fn spec_text(&self) -> Seq<char> {
        self.text@
    }

    pub closed spec fn spec_indent(&self) -> nat {
        self.indent as nat
    }

    pub fn new() -> (r: CodeWriter)
        ensures
            r.spec_text() == Seq::<char>::empty(),
            r.spec_indent() == 0,
    {
        CodeWriter { indent: 0, text: String::new() }
    }

    pub fn push(&mut self)
        requires
            old(self).spec_indent() < 1000,
        ensures
            final(self).spec_indent() == old(self).spec_indent() + 1,
            final(self).spec_text() == old(self).spec_text(),
    {
        self.indent = self.indent + 1;
    }

    pub fn pop(&mut self)
        requires
            old(self).spec_indent() > 0,
        ensures
            final(self).spec_indent() == old(self).spec_indent() - 1,
            final(self).spec_text() == old(self).spec_text(),
    {
        self.indent = self.indent - 1;
    }

    pub fn add(&mut self, line: &str)
        ensures
            final(self).spec_indent() == old(self).spec_indent(),
            final(self).spec_text() == old(self).spec_text() + written_line(
                old(self).spec_indent(),
                line@,
            ),
    {
        let mut k: usize = 0;
        while k < self.indent
            invariant
                k <= self.indent,
                self.indent == old(self).spec_indent(),
                self.text@ == old(self).spec_text() + spaces(4 * k as nat),
            decreases self.indent - k,
        {
            self.text.append("    ");
            proof {
                reveal_strlit("    ");
                assert("    "@ =~= spaces(4)) by {
                    reveal_with_fuel(spaces, 5);
                    assert(spaces(4) =~= seq![' ', ' ', ' ', ' ']);
                    assert("    "@ =~= seq![' ', ' ', ' ', ' ']);
                };
                lemma_spaces_add(4 * k as nat, 4);
                assert(old(self).spec_text() + spaces(4 * k as nat) + spaces(4) =~= old(
                    self,
                ).spec_text() + spaces(4 * (k + 1) as nat));
            }
            k = k + 1;
        }
        self.text.append(line);
        self.text.append("\n");
        proof {
            reveal_strlit("\n");
            assert("\n"@ =~= seq!['\n']);
            assert(old(self).spec_text() + spaces(4 * old(self).spec_indent()) + line@
                + seq!['\n'] =~= old(self).spec_text() + written_line(
                old(self).spec_indent(),
                line@,
            ));
        }
    }

    pub fn into_text(self) -> (r: String)
        ensures
            r@ == self.spec_text(),
    {
        self.text
    }
}

} // verus!

//! Plain-text building blocks of the SCAD renderer: indentation, numeric
//! and boolean literals, string quoting, and option lists.

use vstd::prelude::*;
use vstd::string::StrSliceExecFns;
use vstd::string::StringExecFns;

verus! {

/// The number of spaces for one indentation level.
pub const INDENT: usize = 2;

/// Relies on `String::push`: appends the given character to the end of the
/// string.
pub assume_specification[ String::push ](s: &mut String, c: char)
    ensures
        final(s)@ == old(s)@.push(c),
;

/// A run of `n` space characters.
pub open spec fn spaces(n: nat) -> Seq<char> {
    Seq::new(n, |i: int| ' ')
}

/// The tail of an indented string: every newline that is not the final
/// character of the string is followed by `n` spaces; all other characters
/// are kept as they are.
pub open spec fn indent_tail_spec(s: Seq<char>, n: nat) -> Seq<char>
    decreases s.len(),
{
    if s.len() == 0 {
        Seq::empty()
    } else if s[0] == '\n' {
        if s.len() == 1 {
            seq!['\n']
        } else {
            seq!['\n'] + spaces(n) + indent_tail_spec(s.drop_first(), n)
        }
    } else {
        seq![s[0]] + indent_tail_spec(s.drop_first(), n)
    }
}

/// A string indented by `n` spaces: `n` spaces are placed before the first
/// line and after every newline except a final one, so that a trailing empty
/// line is preserved unpadded.  The empty string stays empty.
pub open spec fn indent_spec(s: Seq<char>, n: nat) -> Seq<char> {
    if s.len() == 0 {
        Seq::empty()
    } else {
        spaces(n) + indent_tail_spec(s, n)
    }
}

/// Appends `n` spaces to `out`.
fn push_spaces(out: &mut String, n: usize)
    ensures
        final(out)@ == old(out)@ + spaces(n as nat),
{
    let mut i: usize = 0;
    while i < n
        invariant
            i <= n,
            out@ == old(out)@ + spaces(i as nat),
        decreases n - i,
    {
        out.push(' ');
        proof {
            assert(spaces((i + 1) as nat) =~= spaces(i as nat).push(' '));
        }
        i = i + 1;
    }
    proof {
        assert(out@ =~= old(out)@ + spaces(n as nat));
    }
}

/// The recursive worker behind [`indent_str`], operating on the tail of the
/// input.
fn indent_tail(s: &str, n: usize) -> (r: String)
    requires
        s@.len() > 0,
    ensures
        r@ == indent_tail_spec(s@, n as nat),
    decreases s@.len(),
{
    let len = s.unicode_len();
    let c = s.get_char(0);
    let mut r = String::new();
    if c == '\n' {
        r.push('\n');
        if len > 1 {
            push_spaces(&mut r, n);
            let rest = indent_tail(s.substring_char(1, len), n);
            r.append(rest.as_str());
            proof {
                assert(s@.subrange(1, len as int) =~= s@.drop_first());
                assert(r@ =~= indent_tail_spec(s@, n as nat));
            }
        } else {
            proof {
                assert(r@ =~= indent_tail_spec(s@, n as nat));
            }
        }
    } else {
        r.push(c);
        if len > 1 {
            let rest = indent_tail(s.substring_char(1, len), n);
            r.append(rest.as_str());
        }
        proof {
            assert(s@.subrange(1, len as int) =~= s@.drop_first());
            assert(indent_tail_spec(s@, n as nat) == seq![s@[0]]
                + indent_tail_spec(s@.drop_first(), n as nat));
            if len > 1 {
                assert(r@ =~= seq![s@[0]] + indent_tail_spec(s@.drop_first(), n as nat));
            } else {
                assert(s@.drop_first().len() == 0);
                assert(indent_tail_spec(s@.drop_first(), n as nat) == Seq::<char>::empty());
                assert(r@ =~= seq![s@[0]] + indent_tail_spec(s@.drop_first(), n as nat));
            }
            assert(r@ == indent_tail_spec(s@, n as nat));
        }
    }
    r
}

/// Runs of spaces concatenate additively.
proof fn lemma_spaces_add(a: nat, b: nat)
    ensures
        spaces(a) + spaces(b) == spaces(a + b),
{
    assert(spaces(a) + spaces(b) =~= spaces(a + b));
}

/// Indenting the tail of a non-empty string yields a non-empty string.
proof fn lemma_indent_tail_nonempty(s: Seq<char>, n: nat)
    requires
        s.len() > 0,
    ensures
        indent_tail_spec(s, n).len() > 0,
{
}

/// A newline-free prefix passes through tail indentation unchanged.
proof fn lemma_indent_tail_prefix(a: Seq<char>, b: Seq<char>, n: nat)
    requires
        forall|i: int| 0 <= i < a.len() ==> a[i] != '\n',
        b.len() > 0,
    ensures
        indent_tail_spec(a + b, n) == a + indent_tail_spec(b, n),
    decreases a.len(),
{
    if a.len() == 0 {
        assert(a + b =~= b);
        assert(a + indent_tail_spec(b, n) =~= indent_tail_spec(b, n));
    } else {
        lemma_indent_tail_prefix(a.drop_first(), b, n);
        let s = a + b;
        assert(s[0] == a[0]);
        assert(s.drop_first() =~= a.drop_first() + b);
        assert(indent_tail_spec(s, n) == seq![a[0]] + indent_tail_spec(a.drop_first() + b, n));
        assert(seq![a[0]] + (a.drop_first() + indent_tail_spec(b, n)) =~= a + indent_tail_spec(
            b,
            n,
        ));
    }
}

/// Composing tail indentations adds the indents.
proof fn lemma_indent_tail_compose(s: Seq<char>, m: nat, n: nat)
    requires
        s.len() > 0,
    ensures
        indent_tail_spec(indent_tail_spec(s, m), n) == indent_tail_spec(s, (m + n) as nat),
    decreases s.len(),
{
    let rest = s.drop_first();
    let t = indent_tail_spec(s, m);
    if s[0] == '\n' {
        if s.len() == 1 {
            assert(t == seq!['\n']);
            assert(t[0] == '\n');
            assert(indent_tail_spec(t, n) == seq!['\n']);
        } else {
            lemma_indent_tail_compose(rest, m, n);
            lemma_indent_tail_nonempty(rest, m);
            assert(t == seq!['\n'] + spaces(m) + indent_tail_spec(rest, m));
            assert(t[0] == '\n');
            assert(t.len() > 1);
            assert(t.drop_first() =~= spaces(m) + indent_tail_spec(rest, m));
            assert(indent_tail_spec(t, n) == seq!['\n'] + spaces(n) + indent_tail_spec(
                spaces(m) + indent_tail_spec(rest, m),
                n,
            ));
            assert(forall|i: int| 0 <= i < spaces(m).len() ==> spaces(m)[i] != '\n');
            lemma_indent_tail_prefix(spaces(m), indent_tail_spec(rest, m), n);
            lemma_spaces_add(n, m);
            assert(seq!['\n'] + spaces(n) + (spaces(m) + indent_tail_spec(rest, (m + n) as nat))
                =~= seq!['\n'] + spaces((m + n) as nat) + indent_tail_spec(rest, (m + n) as nat));
        }
    } else {
        if s.len() == 1 {
            assert(t == seq![s[0]] + indent_tail_spec(rest, m));
            assert(indent_tail_spec(rest, m) == Seq::<char>::empty());
            assert(t =~= seq![s[0]]);
            assert(t[0] == s[0]);
            assert(indent_tail_spec(t, n) == seq![s[0]] + indent_tail_spec(t.drop_first(), n));
            assert(t.drop_first() =~= Seq::<char>::empty());
            assert(indent_tail_spec(s, (m + n) as nat) == seq![s[0]] + indent_tail_spec(
                rest,
                (m + n) as nat,
            ));
        } else {
            lemma_indent_tail_compose(rest, m, n);
            lemma_indent_tail_nonempty(rest, m);
            assert(t == seq![s[0]] + indent_tail_spec(rest, m));
            assert(t[0] == s[0]);
            assert(t.drop_first() =~= indent_tail_spec(rest, m));
            assert(indent_tail_spec(t, n) == seq![s[0]] + indent_tail_spec(
                indent_tail_spec(rest, m),
                n,
            ));
        }
    }
}

/// Indentation composes: indenting a string by `m` spaces and the result by
/// `n` spaces is the same as indenting the string once by `n + m` spaces.
/// So a node placed `k` block levels deep is indented by exactly `2k`
/// spaces in the final rendering.
pub proof fn lemma_indent_compose(s: Seq<char>, m: nat, n: nat)
    ensures
        indent_spec(indent_spec(s, m), n) == indent_spec(s, (m + n) as nat),
{
    if s.len() > 0 {
        let t = indent_spec(s, m);
        lemma_indent_tail_nonempty(s, m);
        assert(t.len() > 0);
        assert(t == spaces(m) + indent_tail_spec(s, m));
        assert(forall|i: int| 0 <= i < spaces(m).len() ==> spaces(m)[i] != '\n');
        lemma_indent_tail_prefix(spaces(m), indent_tail_spec(s, m), n);
        lemma_indent_tail_compose(s, m, n);
        lemma_spaces_add(n, m);
        assert(spaces(n) + (spaces(m) + indent_tail_spec(s, (m + n) as nat)) =~= spaces(
            (m + n) as nat,
        ) + indent_tail_spec(s, (m + n) as nat));
    }
}

/// A string indented one level at a time, `k` times — the indentation a
/// node's rendering receives when it sits `k` nesting levels deep.
pub open spec fn indent_times(s: Seq<char>, k: nat) -> Seq<char>
    decreases k,
{
    if k == 0 {
        s
    } else {
        indent_spec(indent_times(s, (k - 1) as nat), INDENT as nat)
    }
}

/// The indentation invariant over nesting depth: a rendering wrapped `k`
/// levels deep is the inner text indented by exactly `2k` spaces, so (with
/// [`lemma_indent_line_start`]) each of its lines starts with `2k` spaces.
pub proof fn lemma_depth_indentation(s: Seq<char>, k: nat)
    ensures
        indent_times(s, k) == indent_spec(s, (2 * k) as nat),
    decreases k,
{
    if k == 0 {
        if s.len() > 0 {
            assert(spaces(0) =~= Seq::<char>::empty());
            lemma_indent_tail_zero(s);
            assert(spaces(0) + indent_tail_spec(s, 0) =~= s);
        }
    } else {
        lemma_depth_indentation(s, (k - 1) as nat);
        lemma_indent_compose(s, (2 * (k - 1)) as nat, 2);
    }
}

/// Indenting by zero spaces changes nothing.
proof fn lemma_indent_tail_zero(s: Seq<char>)
    ensures
        indent_tail_spec(s, 0) == s,
    decreases s.len(),
{
    if s.len() > 0 {
        lemma_indent_tail_zero(s.drop_first());
        assert(spaces(0) =~= Seq::<char>::empty());
        if s[0] == '\n' && s.len() > 1 {
            assert(seq!['\n'] + spaces(0) + s.drop_first() =~= s);
        } else if s[0] == '\n' {
            assert(seq!['\n'] =~= s);
        } else {
            assert(seq![s[0]] + s.drop_first() =~= s);
        }
    }
}

/// Inside an indented tail, every character that follows a newline (other
/// than a final one) opens a run of `n` spaces.
proof fn lemma_indent_tail_line_start(s: Seq<char>, n: nat, i: int)
    requires
        s.len() > 0,
        1 <= i < indent_tail_spec(s, n).len(),
        indent_tail_spec(s, n)[i - 1] == '\n',
    ensures
        i + n <= indent_tail_spec(s, n).len(),
        forall|k: int| 0 <= k < n ==> #[trigger] indent_tail_spec(s, n)[i + k] == ' ',
    decreases s.len(),
{
    let rest = s.drop_first();
    let t = indent_tail_spec(s, n);
    if s[0] == '\n' {
        if s.len() == 1 {
            assert(t == seq!['\n']);
            assert(false);
        } else {
            lemma_indent_tail_nonempty(rest, n);
            let tt = indent_tail_spec(rest, n);
            assert(t == seq!['\n'] + spaces(n) + tt);
            assert(t.len() == 1 + n + tt.len());
            if i == 1 {
                assert forall|k: int| 0 <= k < n implies #[trigger] t[i + k] == ' ' by {
                    assert(t[1 + k] == spaces(n)[k]);
                }
            } else if i - 1 <= n {
                assert(t[i - 1] == spaces(n)[i - 2]);
                assert(false);
            } else {
                let j = i - (n + 1);
                assert(t[i - 1] == tt[j - 1]);
                lemma_indent_tail_line_start(rest, n, j);
                assert forall|k: int| 0 <= k < n implies #[trigger] t[i + k] == ' ' by {
                    assert(t[i + k] == tt[j + k]);
                }
            }
        }
    } else {
        if s.len() == 1 {
            assert(rest.len() == 0);
            assert(indent_tail_spec(rest, n) == Seq::<char>::empty());
            assert(t =~= seq![s[0]]);
            assert(false);
        } else {
            let tt = indent_tail_spec(rest, n);
            assert(t == seq![s[0]] + tt);
            if i == 1 {
                assert(t[0] == s[0]);
                assert(false);
            } else {
                assert(t[i - 1] == tt[i - 2]);
                lemma_indent_tail_line_start(rest, n, i - 1);
                assert forall|k: int| 0 <= k < n implies #[trigger] t[i + k] == ' ' by {
                    assert(t[i + k] == tt[i - 1 + k]);
                }
            }
        }
    }
}

/// The indentation invariant of one level: in `indent_spec(s, n)`, every
/// line start — the beginning of the string, or any position right after a
/// newline that is not the final character — is followed by at least `n`
/// spaces.
pub proof fn lemma_indent_line_start(s: Seq<char>, n: nat, i: int)
    requires
        0 <= i < indent_spec(s, n).len(),
        i == 0 || indent_spec(s, n)[i - 1] == '\n',
    ensures
        i + n <= indent_spec(s, n).len(),
        forall|k: int| 0 <= k < n ==> #[trigger] indent_spec(s, n)[i + k] == ' ',
{
    assert(s.len() > 0);
    let t = indent_spec(s, n);
    let tail = indent_tail_spec(s, n);
    lemma_indent_tail_nonempty(s, n);
    assert(t == spaces(n) + tail);
    if i == 0 {
        assert forall|k: int| 0 <= k < n implies #[trigger] t[k] == ' ' by {
            assert(t[k] == spaces(n)[k]);
        }
    } else {
        if i - 1 < n {
            assert(t[i - 1] == spaces(n)[i - 1]);
            assert(false);
        } else {
            let j = i - n;
            if j == 0 {
                assert(t[i - 1] == spaces(n)[n - 1]);
                assert(false);
            } else {
                assert(t[i - 1] == tail[j - 1]);
                lemma_indent_tail_line_start(s, n, j);
                assert forall|k: int| 0 <= k < n implies #[trigger] t[i + k] == ' ' by {
                    assert(t[i + k] == tail[j + k]);
                }
            }
        }
    }
}

/// Relies on `String::pop`: removes the last character of the string and
/// returns it, or returns `None` on an empty string.
pub assume_specification[ String::pop ](s: &mut String) -> (c: Option<char>)
    ensures
        old(s)@.len() == 0 ==> c is None && final(s)@ == old(s)@,
        old(s)@.len() > 0 ==> c == Some(old(s)@.last()) && final(s)@ == old(s)@.drop_last(),
;

/// The character for a single decimal digit.
pub open spec fn decimal_digit(d: nat) -> char {
    if d == 0 {
        '0'
    } else if d == 1 {
        '1'
    } else if d == 2 {
        '2'
    } else if d == 3 {
        '3'
    } else if d == 4 {
        '4'
    } else if d == 5 {
        '5'
    } else if d == 6 {
        '6'
    } else if d == 7 {
        '7'
    } else if d == 8 {
        '8'
    } else {
        '9'
    }
}

/// The decimal representation of a natural number, most significant digit
/// first, with no leading zeros (a lone `0` for zero).
pub open spec fn decimal_rep(n: nat) -> Seq<char>
    decreases n,
{
    if n < 10 {
        seq![decimal_digit(n)]
    } else {
        decimal_rep(n / 10).push(decimal_digit(n % 10))
    }
}

/// The character for the decimal digit `d`.
fn decimal_digit_char(d: u64) -> (c: char)
    requires
        d < 10,
    ensures
        c == decimal_digit(d as nat),
{
    if d == 0 {
        '0'
    } else if d == 1 {
        '1'
    } else if d == 2 {
        '2'
    } else if d == 3 {
        '3'
    } else if d == 4 {
        '4'
    } else if d == 5 {
        '5'
    } else if d == 6 {
        '6'
    } else if d == 7 {
        '7'
    } else if d == 8 {
        '8'
    } else {
        '9'
    }
}

/// The decimal representation of `x` as a string.
pub fn decimal_string(x: u64) -> (r: String)
    ensures
        r@ == decimal_rep(x as nat),
    decreases x,
{
    let mut r = if x >= 10 {
        decimal_string(x / 10)
    } else {
        String::new()
    };
    r.push(decimal_digit_char(x % 10));
    proof {
        if x < 10 {
            assert(r@ =~= decimal_rep(x as nat));
        }
    }
    r
}

/// A string with every double quote escaped by a backslash.
pub open spec fn escape_quotes_spec(s: Seq<char>) -> Seq<char>
    decreases s.len(),
{
    if s.len() == 0 {
        Seq::empty()
    } else {
        (if s[0] == '"' {
            seq!['\\', '"']
        } else {
            seq![s[0]]
        }) + escape_quotes_spec(s.drop_first())
    }
}

/// A string literal in SCAD: the text with double quotes escaped, wrapped in
/// double quotes.
pub open spec fn quoted_spec(s: Seq<char>) -> Seq<char> {
    seq!['"'] + escape_quotes_spec(s) + seq!['"']
}

/// The worker behind [`quoted`]: escapes double quotes in `s`.
fn escape_quotes(s: &str) -> (r: String)
    ensures
        r@ == escape_quotes_spec(s@),
    decreases s@.len(),
{
    let len = s.unicode_len();
    let mut r = String::new();
    if len == 0 {
        proof {
            assert(r@ =~= escape_quotes_spec(s@));
        }
        return r;
    }
    let c = s.get_char(0);
    if c == '"' {
        r.push('\\');
        r.push('"');
    } else {
        r.push(c);
    }
    if len > 1 {
        let rest = escape_quotes(s.substring_char(1, len));
        r.append(rest.as_str());
    }
    proof {
        assert(s@.subrange(1, len as int) =~= s@.drop_first());
        assert(escape_quotes_spec(s@) == (if s@[0] == '"' {
            seq!['\\', '"']
        } else {
            seq![s@[0]]
        }) + escape_quotes_spec(s@.drop_first()));
        if len == 1 {
            assert(s@.drop_first().len() == 0);
            assert(escape_quotes_spec(s@.drop_first()) == Seq::<char>::empty());
        }
        assert(r@ =~= escape_quotes_spec(s@));
    }
    r
}

/// Renders `s` as a SCAD string literal: quoted, with inner double quotes
/// escaped.
pub fn quoted(s: &str) -> (r: String)
    ensures
        r@ == quoted_spec(s@),
{
    let mut r = String::new();
    r.push('"');
    let body = escape_quotes(s);
    r.append(body.as_str());
    r.push('"');
    proof {
        assert(r@ =~= quoted_spec(s@));
    }
    r
}

/// A list of strings joined by a comma and a space.
pub open spec fn join_comma_spec(items: Seq<Seq<char>>) -> Seq<char>
    decreases items.len(),
{
    if items.len() == 0 {
        Seq::empty()
    } else if items.len() == 1 {
        items[0]
    } else {
        items[0] + seq![',', ' '] + join_comma_spec(items.drop_first())
    }
}

/// The worker behind [`join_comma`], joining the items from index `i` on.
fn join_comma_from(items: &Vec<String>, i: usize) -> (r: String)
    requires
        i < items@.len(),
    ensures
        r@ == join_comma_spec(items.deep_view().skip(i as int)),
    decreases items@.len() - i,
{
    let n = items.len();
    let mut r = items[i].clone();
    if i < n - 1 {
        r.push(',');
        r.push(' ');
        let rest = join_comma_from(items, i + 1);
        r.append(rest.as_str());
    }
    proof {
        let dv = items.deep_view();
        assert(dv.len() == items@.len());
        assert(dv.skip(i as int).len() == dv.len() - i);
        assert(dv.skip(i as int)[0] == dv[i as int]);
        assert(dv[i as int] == items@[i as int]@);
        if i + 1 < items@.len() {
            assert(dv.skip(i as int).drop_first() =~= dv.skip(i + 1));
        }
        assert(r@ =~= join_comma_spec(dv.skip(i as int)));
    }
    r
}

/// Joins the strings with `", "` between consecutive items.
pub fn join_comma(items: &Vec<String>) -> (r: String)
    ensures
        r@ == join_comma_spec(items.deep_view()),
{
    if items.len() == 0 {
        let r = String::new();
        proof {
            assert(items.deep_view().len() == 0);
        }
        r
    } else {
        let r = join_comma_from(items, 0);
        proof {
            assert(items.deep_view().skip(0) =~= items.deep_view());
        }
        r
    }
}

/// A string with trailing `'0'` characters removed.
pub open spec fn strip_zeros(s: Seq<char>) -> Seq<char>
    decreases s.len(),
{
    if s.len() > 0 && s.last() == '0' {
        strip_zeros(s.drop_last())
    } else {
        s
    }
}

/// A string with one trailing `'.'` removed, if present.
pub open spec fn strip_dot(s: Seq<char>) -> Seq<char> {
    if s.len() > 0 && s.last() == '.' {
        s.drop_last()
    } else {
        s
    }
}

/// The normal form of a fixed-precision decimal literal: if the string
/// contains a decimal point, trailing zeros and then a trailing point are
/// stripped; a resulting `-0` becomes `0`.
pub open spec fn format_number_spec(s: Seq<char>) -> Seq<char> {
    let t = if s.contains('.') {
        strip_dot(strip_zeros(s))
    } else {
        s
    };
    if t == seq!['-', '0'] {
        seq!['0']
    } else {
        t
    }
}

/// A decimal digit character.
pub open spec fn is_digit(c: char) -> bool {
    c == '0' || c == '1' || c == '2' || c == '3' || c == '4' || c == '5' || c == '6' || c == '7'
        || c == '8' || c == '9'
}

/// A fixed-precision decimal literal: an optional minus sign, at least one
/// digit, and optionally a decimal point followed by digits — the shape of
/// a finite number printed with a fixed count of fractional digits.
pub open spec fn is_fixed_decimal(s: Seq<char>) -> bool {
    let b: int = if s.len() > 0 && s[0] == '-' {
        1
    } else {
        0
    };
    exists|d: int|
        b < d <= s.len() && (forall|j: int| b <= j < d ==> is_digit(#[trigger] s[j])) && (d
            == s.len() || ((#[trigger] s[d]) == '.' && forall|j: int|
            d < j < s.len() ==> is_digit(#[trigger] s[j])))
}

/// Stripping trailing zeros keeps a prefix of the string: everything past
/// it is a zero, and what remains does not end in one.
proof fn lemma_strip_zeros_shape(s: Seq<char>)
    ensures
        strip_zeros(s).len() <= s.len(),
        strip_zeros(s) == s.take(strip_zeros(s).len() as int),
        forall|j: int| strip_zeros(s).len() <= j < s.len() ==> (#[trigger] s[j]) == '0',
        strip_zeros(s).len() > 0 ==> strip_zeros(s).last() != '0',
    decreases s.len(),
{
    if s.len() > 0 && s.last() == '0' {
        lemma_strip_zeros_shape(s.drop_last());
        let k = strip_zeros(s.drop_last()).len() as int;
        assert(s.drop_last().take(k) =~= s.take(k));
        assert forall|j: int| strip_zeros(s).len() <= j < s.len() implies (#[trigger] s[j])
            == '0' by {
            if j < s.len() - 1 {
                assert(s.drop_last()[j] == s[j]);
            }
        }
    } else {
        assert(s.take(s.len() as int) =~= s);
    }
}

/// Idempotence of number formatting: normalizing a fixed-precision decimal
/// literal a second time changes nothing, so a formatted number round-trips
/// to the same trimmed string.
pub proof fn lemma_format_number_idempotent(s: Seq<char>)
    requires
        is_fixed_decimal(s),
    ensures
        format_number_spec(format_number_spec(s)) == format_number_spec(s),
{
    let b: int = if s.len() > 0 && s[0] == '-' {
        1
    } else {
        0
    };
    let d = choose|d: int|
        b < d <= s.len() && (forall|j: int| b <= j < d ==> is_digit(#[trigger] s[j])) && (d
            == s.len() || ((#[trigger] s[d]) == '.' && forall|j: int|
            d < j < s.len() ==> is_digit(#[trigger] s[j])));
    let t = format_number_spec(s);
    assert(!seq!['0'].contains('.')) by {
        assert(forall|q: int| 0 <= q < 1 ==> (#[trigger] seq!['0'][q]) == '0');
    }
    if s.contains('.') {
        let p = choose|p: int| 0 <= p < s.len() && (#[trigger] s[p]) == '.';
        if d == s.len() {
            if p >= b {
                assert(is_digit(s[p]));
            } else {
                assert(s[p] == '-');
            }
            assert(false);
        }
        assert(s[d] == '.');
        lemma_strip_zeros_shape(s);
        let z = strip_zeros(s);
        let kz = z.len() as int;
        if kz < d + 1 {
            assert(s[d] == '0');
            assert(false);
        }
        if kz == d + 1 {
            assert(z[kz - 1] == s[d]);
            assert(z.last() == '.');
            let t0 = strip_dot(z);
            assert(t0 =~= s.take(d));
            assert forall|q: int| 0 <= q < t0.len() implies (#[trigger] t0[q]) != '.' by {
                assert(t0[q] == s[q]);
                if q >= b {
                    assert(is_digit(s[q]));
                } else {
                    assert(s[q] == '-');
                }
            }
            assert(!t0.contains('.'));
            if t0 == seq!['-', '0'] {
                assert(t == seq!['0']);
                assert(format_number_spec(t) == t);
            } else {
                assert(t == t0);
                assert(format_number_spec(t) == t);
            }
        } else {
            assert(z[kz - 1] == s[kz - 1]);
            assert(is_digit(s[kz - 1]));
            assert(z.last() != '.');
            assert(z.last() != '0');
            let t0 = strip_dot(z);
            assert(t0 == z);
            assert(z[d] == s[d]);
            assert(z.contains('.'));
            if z == seq!['-', '0'] {
                assert(z[d] == '-' || z[d] == '0');
                assert(false);
            }
            assert(t == z);
            assert(strip_zeros(z) == z);
            assert(format_number_spec(t) == t);
        }
    } else {
        if s == seq!['-', '0'] {
            assert(t == seq!['0']);
            assert(format_number_spec(t) == t);
        } else {
            assert(t == s);
            assert(format_number_spec(t) == t);
        }
    }
}

/// Whether `s` contains the character `c`.
fn contains_char(s: &str, c: char) -> (r: bool)
    ensures
        r == s@.contains(c),
{
    let len = s.unicode_len();
    let mut i: usize = 0;
    let mut found = false;
    while i < len
        invariant
            i <= len,
            len == s@.len(),
            found ==> s@.contains(c),
            !found ==> forall|j: int| 0 <= j < i ==> s@[j] != c,
        decreases len - i,
    {
        if s.get_char(i) == c {
            found = true;
        }
        i = i + 1;
    }
    proof {
        if !found {
            assert(forall|j: int| 0 <= j < s@.len() ==> s@[j] != c);
        }
    }
    found
}

/// Normalizes a decimal number literal: strips trailing zeros after a
/// decimal point, then a lone trailing point, and maps `-0` to `0`.  A
/// string without a decimal point is only subject to the `-0` rule.
pub fn format_number(s: &str) -> (r: String)
    ensures
        r@ == format_number_spec(s@),
{
    let mut t = s.to_owned();
    if contains_char(s, '.') {
        while t.unicode_len() > 0 && t.as_str().get_char(t.unicode_len() - 1) == '0'
            invariant
                strip_zeros(t@) == strip_zeros(s@),
            decreases t@.len(),
        {
            let _ = t.pop();
        }
        proof {
            assert(strip_zeros(t@) == t@);
        }
        if t.unicode_len() > 0 && t.as_str().get_char(t.unicode_len() - 1) == '.' {
            let _ = t.pop();
        }
        proof {
            assert(t@ == strip_dot(strip_zeros(s@)));
        }
    }
    if t.unicode_len() == 2 && t.as_str().get_char(0) == '-' && t.as_str().get_char(1) == '0' {
        let mut zero = String::new();
        zero.push('0');
        proof {
            assert(t@ =~= seq!['-', '0']);
            assert(zero@ =~= seq!['0']);
        }
        zero
    } else {
        proof {
            assert(t@ != seq!['-', '0']);
        }
        t
    }
}

/// Indents a string: each line is prefixed with `indent` spaces, and a
/// trailing empty line introduced by a final newline is preserved so that
/// nested indentation stays stable under repeated wrapping.
pub fn indent_str(s: &str, indent: usize) -> (r: String)
    ensures
        r@ == indent_spec(s@, indent as nat),
{
    let len = s.unicode_len();
    let mut r = String::new();
    if len == 0 {
        return r;
    }
    push_spaces(&mut r, indent);
    let tail = indent_tail(s, indent);
    r.append(tail.as_str());
    r
}

} // verus!

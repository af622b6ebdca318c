//! The text model of a rendered report: the indentation transform, decimal
//! ordinals, the block written for each cause, and the full report, together
//! with the lemmas the renderer builds on.

use vstd::prelude::*;

verus! {

/// The fixed four-space prefix that every line of a cause message receives.
pub open spec fn pad() -> Seq<char> {
    seq![' ', ' ', ' ', ' ']
}

/// The separator written between the root message and the cause blocks.
pub open spec fn caused_by_header() -> Seq<char> {
    seq!['\n', '\n', 'C', 'a', 'u', 's', 'e', 'd', ' ', 'b', 'y', ':']
}

/// True when `s` contains no line break.
pub open spec fn newline_free(s: Seq<char>) -> bool {
    forall|i: int| 0 <= i < s.len() ==> s[i] != '\n'
}

/// `s` with the four-space prefix inserted after every newline: this indents
/// every line of a message but the first, which the caller indents itself.
pub open spec fn indent_rest(s: Seq<char>) -> Seq<char>
    decreases s.len(),
{
    if s.len() == 0 {
        Seq::empty()
    } else if s[0] == '\n' {
        seq!['\n'] + pad() + indent_rest(s.drop_first())
    } else {
        seq![s[0]] + indent_rest(s.drop_first())
    }
}

/// The decimal digit `d` as a character.
pub open spec fn digit_char(d: nat) -> char
    recommends
        d < 10,
{
    if d == 0 {
        '0'
    } else if d == 1 {
        '1'
    } else if d == 2 {
        '2'
    } else if d == 3 {
        '3'
    } else if d == 4 {
        '4'
    } else if d == 5 {
        '5'
    } else if d == 6 {
        '6'
    } else if d == 7 {
        '7'
    } else if d == 8 {
        '8'
    } else {
        '9'
    }
}

/// `n` written in decimal, without leading zeros.
pub open spec fn spec_digits(n: nat) -> Seq<char>
    decreases n,
{
    if n < 10 {
        seq![digit_char(n)]
    } else {
        spec_digits(n / 10) + seq![digit_char(n % 10)]
    }
}

/// The ordinal marker a cause receives: its zero-based index followed by a
/// colon when the chain has two or more causes, nothing otherwise.
pub open spec fn ordinal(i: nat, multi: bool) -> Seq<char> {
    if multi {
        spec_digits(i) + seq![':']
    } else {
        Seq::empty()
    }
}

/// The block written for one cause: a newline, the ordinal marker, the
/// four-space indent, then the message with every further line indented.
pub open spec fn spec_block(msg: Seq<char>, i: nat, multi: bool) -> Seq<char> {
    seq!['\n'] + ordinal(i, multi) + pad() + indent_rest(msg)
}

/// The blocks for a sequence of causes, numbered from `i` on.
pub open spec fn spec_causes(causes: Seq<Seq<char>>, i: nat, multi: bool) -> Seq<char>
    decreases causes.len(),
{
    if causes.len() == 0 {
        Seq::empty()
    } else {
        spec_block(causes[0], i, multi) + spec_causes(causes.drop_first(), i + 1, multi)
    }
}

/// The full report for a root message and its causes: the root text alone
/// when no cause exists, otherwise the root text, the `Caused by:` header,
/// and one block per cause, numbered exactly when there are two or more.
pub open spec fn spec_render(root: Seq<char>, causes: Seq<Seq<char>>) -> Seq<char> {
    if causes.len() == 0 {
        root
    } else {
        root + caused_by_header() + spec_causes(causes, 0, causes.len() >= 2)
    }
}

/// `s` split into its physical lines: the text between newlines, in order.
/// Every text has at least one line, so the result is never empty; a newline
/// at the end of `s` yields a final empty line.
pub open spec fn spec_lines(s: Seq<char>) -> Seq<Seq<char>>
    decreases s.len(),
{
    if s.len() == 0 {
        seq![Seq::<char>::empty()]
    } else if s[0] == '\n' {
        seq![Seq::<char>::empty()] + spec_lines(s.drop_first())
    } else {
        let rest = spec_lines(s.drop_first());
        seq![seq![s[0]] + rest[0]] + rest.drop_first()
    }
}

/// A text always has at least one line.
pub proof fn lemma_spec_lines_nonempty(s: Seq<char>)
    ensures
        spec_lines(s).len() >= 1,
    decreases s.len(),
{
    if s.len() != 0 {
        lemma_spec_lines_nonempty(s.drop_first());
    }
}

/// Prepending text without line breaks extends the first line and leaves the
/// remaining lines alone.
pub proof fn lemma_spec_lines_prepend(p: Seq<char>, s: Seq<char>)
    requires
        newline_free(p),
    ensures
        spec_lines(p + s) == seq![p + spec_lines(s)[0]] + spec_lines(s).drop_first(),
    decreases p.len(),
{
    lemma_spec_lines_nonempty(s);
    if p.len() == 0 {
        assert(p + s =~= s);
        assert(seq![p + spec_lines(s)[0]] + spec_lines(s).drop_first() =~~= spec_lines(s));
    } else {
        assert(p[0] != '\n');
        assert(newline_free(p.drop_first()));
        lemma_spec_lines_prepend(p.drop_first(), s);
        assert((p + s).drop_first() =~= p.drop_first() + s);
        assert((p + s)[0] == p[0]);
        let rest = spec_lines(p.drop_first() + s);
        assert(spec_lines(p + s) == seq![seq![p[0]] + rest[0]] + rest.drop_first());
        assert(spec_lines(p + s) =~~= seq![p + spec_lines(s)[0]] + spec_lines(s).drop_first());
    }
}

/// Concatenation cancels on the left.
pub proof fn lemma_concat_cancel_left(a: Seq<char>, x: Seq<char>, y: Seq<char>)
    requires
        a + x == a + y,
    ensures
        x == y,
{
    assert(x =~= (a + x).skip(a.len() as int));
    assert(y =~= (a + y).skip(a.len() as int));
}

/// The indentation transform distributes over concatenation.
pub proof fn lemma_indent_rest_concat(a: Seq<char>, b: Seq<char>)
    ensures
        indent_rest(a + b) == indent_rest(a) + indent_rest(b),
    decreases a.len(),
{
    if a.len() == 0 {
        assert(a + b =~= b);
        assert(indent_rest(a) + indent_rest(b) =~= indent_rest(b));
    } else {
        lemma_indent_rest_concat(a.drop_first(), b);
        assert((a + b).drop_first() =~= a.drop_first() + b);
        assert((a + b)[0] == a[0]);
        if a[0] == '\n' {
            assert(seq!['\n'] + pad() + (indent_rest(a.drop_first()) + indent_rest(b)) =~= (
            seq!['\n'] + pad() + indent_rest(a.drop_first())) + indent_rest(b));
        } else {
            assert(seq![a[0]] + (indent_rest(a.drop_first()) + indent_rest(b)) =~= (seq![a[0]]
                + indent_rest(a.drop_first())) + indent_rest(b));
        }
    }
}

/// On text without line breaks the indentation transform changes nothing.
pub proof fn lemma_indent_rest_flat(s: Seq<char>)
    requires
        newline_free(s),
    ensures
        indent_rest(s) == s,
    decreases s.len(),
{
    if s.len() == 0 {
        assert(indent_rest(s) =~= s);
    } else {
        assert(newline_free(s.drop_first()));
        lemma_indent_rest_flat(s.drop_first());
        assert(seq![s[0]] + s.drop_first() =~= s);
    }
}

/// Taking a prefix that ends inside the middle piece of a concatenation
/// yields the first piece plus that much of the middle piece.
pub proof fn lemma_take_within_concat(done: Seq<char>, s: Seq<char>, tail: Seq<char>, n: int)
    requires
        0 <= n <= s.len(),
    ensures
        (done + s + tail).take(done.len() + n) == done + s.take(n),
{
    assert((done + s + tail).take(done.len() + n) =~= done + s.take(n));
}

} // verus!

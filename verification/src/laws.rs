//! The laws the renderer obeys, stated over the text model that `render`'s
//! own contract speaks of, and proved once for all inputs.

use vstd::prelude::*;

use crate::text::{
    caused_by_header, indent_rest, lemma_concat_cancel_left, lemma_indent_rest_flat,
    lemma_spec_lines_nonempty, lemma_spec_lines_prepend, newline_free, pad, spec_block,
    spec_causes, spec_digits, spec_lines, spec_render,
};

verus! {

/// A chain with no cause renders to exactly the root message: no separator,
/// no trailing text.
pub proof fn lemma_render_root_only(root: Seq<char>)
    ensures
        spec_render(root, Seq::<Seq<char>>::empty()) == root,
{
}

/// A chain with exactly one cause renders to the root message, the
/// `Caused by:` header, a newline, the four-space indent, then the cause
/// message, with no ordinal marker.
pub proof fn lemma_render_single_cause(root: Seq<char>, cause: Seq<char>)
    requires
        newline_free(cause),
    ensures
        spec_render(root, seq![cause]) == root + caused_by_header() + seq!['\n'] + pad() + cause,
{
    let causes = seq![cause];
    lemma_indent_rest_flat(cause);
    assert(causes.drop_first() =~= Seq::<Seq<char>>::empty());
    assert(spec_causes(Seq::<Seq<char>>::empty(), 1, false) == Seq::<char>::empty());
    assert(spec_causes(causes, 0, false) == spec_block(cause, 0, false) + Seq::<char>::empty());
    assert(spec_render(root, causes) =~= root + caused_by_header() + seq!['\n'] + pad() + cause);
}

/// With two or more causes every cause receives an ordinal marker: zero-based
/// and ascending, each followed by the same four-space indent as in the
/// unnumbered form.
pub proof fn lemma_render_two_causes(root: Seq<char>, first: Seq<char>, second: Seq<char>)
    requires
        newline_free(first),
        newline_free(second),
    ensures
        spec_render(root, seq![first, second]) == root + caused_by_header() + seq!['\n', '0', ':']
            + pad() + first + seq!['\n', '1', ':'] + pad() + second,
{
    let causes = seq![first, second];
    lemma_indent_rest_flat(first);
    lemma_indent_rest_flat(second);
    assert(spec_digits(0) =~= seq!['0']);
    assert(spec_digits(1) =~= seq!['1']);
    assert(causes.drop_first() =~= seq![second]);
    assert(seq![second].drop_first() =~= Seq::<Seq<char>>::empty());
    assert(spec_causes(Seq::<Seq<char>>::empty(), 2, true) == Seq::<char>::empty());
    assert(spec_causes(seq![second], 1, true) == spec_block(second, 1, true)
        + Seq::<char>::empty());
    assert(spec_causes(causes, 0, true) == spec_block(first, 0, true) + spec_causes(
        seq![second],
        1,
        true,
    ));
    assert(spec_render(root, causes) =~= root + caused_by_header() + seq!['\n', '0', ':'] + pad()
        + first + seq!['\n', '1', ':'] + pad() + second);
}

/// Every physical line of a cause message receives the four-space prefix: the
/// lines of an indented block are exactly the message's lines, each with the
/// prefix in front.
pub proof fn lemma_every_line_indented(msg: Seq<char>)
    ensures
        spec_lines(pad() + indent_rest(msg)) == spec_lines(msg).map_values(
            |l: Seq<char>| pad() + l,
        ),
    decreases msg.len(),
{
    let f = |l: Seq<char>| pad() + l;
    assert(newline_free(pad()));
    lemma_spec_lines_nonempty(msg);
    if msg.len() == 0 {
        assert(indent_rest(msg) == Seq::<char>::empty());
        assert(pad() + indent_rest(msg) =~= pad() + Seq::<char>::empty());
        lemma_spec_lines_prepend(pad(), Seq::<char>::empty());
        assert(spec_lines(Seq::<char>::empty()) == seq![Seq::<char>::empty()]);
        assert(spec_lines(pad() + indent_rest(msg)) =~~= spec_lines(msg).map_values(f));
    } else if msg[0] == '\n' {
        let m2 = msg.drop_first();
        lemma_every_line_indented(m2);
        lemma_spec_lines_nonempty(m2);
        let s = seq!['\n'] + pad() + indent_rest(m2);
        assert(indent_rest(msg) == s);
        assert(s[0] == '\n');
        assert(s.drop_first() =~= pad() + indent_rest(m2));
        assert(spec_lines(s) == seq![Seq::<char>::empty()] + spec_lines(pad() + indent_rest(m2)));
        lemma_spec_lines_prepend(pad(), s);
        assert(spec_lines(s)[0] == Seq::<char>::empty());
        assert(spec_lines(s).drop_first() =~= spec_lines(pad() + indent_rest(m2)));
        assert(spec_lines(msg) == seq![Seq::<char>::empty()] + spec_lines(m2));
        assert(spec_lines(pad() + indent_rest(msg)) =~~= spec_lines(msg).map_values(f));
    } else {
        let c = msg[0];
        let m2 = msg.drop_first();
        lemma_every_line_indented(m2);
        lemma_spec_lines_nonempty(m2);
        lemma_spec_lines_nonempty(indent_rest(m2));
        assert(indent_rest(msg) == seq![c] + indent_rest(m2));
        let p = pad() + seq![c];
        assert(newline_free(p));
        assert(pad() + indent_rest(msg) =~= p + indent_rest(m2));
        lemma_spec_lines_prepend(p, indent_rest(m2));
        lemma_spec_lines_prepend(pad(), indent_rest(m2));
        // the induction hypothesis, read through the prepend lemma, pins the
        // first line and the remaining lines of the indented tail
        assert(seq![pad() + spec_lines(indent_rest(m2))[0]] + spec_lines(
            indent_rest(m2),
        ).drop_first() == spec_lines(m2).map_values(f));
        assert((seq![pad() + spec_lines(indent_rest(m2))[0]] + spec_lines(
            indent_rest(m2),
        ).drop_first())[0] == pad() + spec_lines(indent_rest(m2))[0]);
        assert(spec_lines(m2).map_values(f)[0] == pad() + spec_lines(m2)[0]);
        lemma_concat_cancel_left(pad(), spec_lines(indent_rest(m2))[0], spec_lines(m2)[0]);
        assert(spec_lines(indent_rest(m2))[0] == spec_lines(m2)[0]);
        assert(spec_lines(indent_rest(m2)).drop_first() =~= spec_lines(m2).map_values(
            f,
        ).drop_first());
        assert(spec_lines(pad() + indent_rest(msg)) == seq![p + spec_lines(indent_rest(m2))[0]]
            + spec_lines(indent_rest(m2)).drop_first());
        assert(spec_lines(msg) == seq![seq![c] + spec_lines(m2)[0]] + spec_lines(m2).drop_first());
        assert(spec_lines(pad() + indent_rest(msg)) =~~= spec_lines(msg).map_values(f));
    }
}

/// Rendering has no hidden state: the report is a function of the chain's
/// messages alone, so two renders of the same chain yield identical text.
pub proof fn lemma_render_deterministic(
    root: Seq<char>,
    causes: Seq<Seq<char>>,
    out1: Seq<char>,
    out2: Seq<char>,
)
    requires
        out1 == spec_render(root, causes),
        out2 == spec_render(root, causes),
    ensures
        out1 == out2,
{
}

/// The blocks of the cause section, one per cause, numbered from `i` on.
pub open spec fn cause_blocks(causes: Seq<Seq<char>>, i: nat, multi: bool) -> Seq<Seq<char>> {
    Seq::new(causes.len(), |k: int| spec_block(causes[k], (i + k) as nat, multi))
}

/// The cause section is the concatenation of exactly one block per cause: a
/// render emits as many blocks as the chain has causes, no more and no fewer.
pub proof fn lemma_one_block_per_cause(causes: Seq<Seq<char>>, i: nat, multi: bool)
    ensures
        cause_blocks(causes, i, multi).len() == causes.len(),
        spec_causes(causes, i, multi) == cause_blocks(causes, i, multi).flatten(),
    decreases causes.len(),
{
    let blocks = cause_blocks(causes, i, multi);
    if causes.len() == 0 {
        assert(blocks.len() == 0);
        assert(blocks.flatten() == Seq::<char>::empty());
    } else {
        lemma_one_block_per_cause(causes.drop_first(), i + 1, multi);
        assert(blocks.drop_first() =~= cause_blocks(causes.drop_first(), i + 1, multi));
        assert(blocks.first() == spec_block(causes[0], i, multi));
        assert(blocks.flatten() == blocks.first() + blocks.drop_first().flatten());
    }
}

} // verus!


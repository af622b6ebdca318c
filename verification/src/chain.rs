//! The error chain and its renderer: walks the chain of cause messages and
//! writes the report into a sink, block by block, without building the whole
//! report first.

use vstd::prelude::*;

use crate::sink::{Sink, StringSink, WriteError};
use crate::text::{
    caused_by_header, digit_char, indent_rest, lemma_indent_rest_concat, lemma_indent_rest_flat,
    lemma_take_within_concat, newline_free, pad, spec_block, spec_causes, spec_digits, spec_render,
};

verus! {

/// Appends one decimal digit to `out`.
fn append_digit(out: &mut String, d: u8)
    requires
        d < 10,
    ensures
        final(out)@ == old(out)@ + seq![digit_char(d as nat)],
{
    if d == 0 {
        out.append("0");
        proof {
            reveal_strlit("0");
            assert("0"@ =~= seq![digit_char(0)]);
        }
    } else if d == 1 {
        out.append("1");
        proof {
            reveal_strlit("1");
            assert("1"@ =~= seq![digit_char(1)]);
        }
    } else if d == 2 {
        out.append("2");
        proof {
            reveal_strlit("2");
            assert("2"@ =~= seq![digit_char(2)]);
        }
    } else if d == 3 {
        out.append("3");
        proof {
            reveal_strlit("3");
            assert("3"@ =~= seq![digit_char(3)]);
        }
    } else if d == 4 {
        out.append("4");
        proof {
            reveal_strlit("4");
            assert("4"@ =~= seq![digit_char(4)]);
        }
    } else if d == 5 {
        out.append("5");
        proof {
            reveal_strlit("5");
            assert("5"@ =~= seq![digit_char(5)]);
        }
    } else if d == 6 {
        out.append("6");
        proof {
            reveal_strlit("6");
            assert("6"@ =~= seq![digit_char(6)]);
        }
    } else if d == 7 {
        out.append("7");
        proof {
            reveal_strlit("7");
            assert("7"@ =~= seq![digit_char(7)]);
        }
    } else if d == 8 {
        out.append("8");
        proof {
            reveal_strlit("8");
            assert("8"@ =~= seq![digit_char(8)]);
        }
    } else {
        out.append("9");
        proof {
            reveal_strlit("9");
            assert("9"@ =~= seq![digit_char(9)]);
        }
    }
}

/// Appends `n` in decimal to `out`.
fn append_digits(out: &mut String, n: usize)
    ensures
        final(out)@ == old(out)@ + spec_digits(n as nat),
    decreases n,
{
    let ghost prev = out@;
    if n >= 10 {
        proof {
            assert(n / 10 < n) by (nonlinear_arith)
                requires
                    n >= 10,
            ;
            assert(n % 10 < 10) by (nonlinear_arith);
        }
        append_digits(out, n / 10);
        append_digit(out, (n % 10) as u8);
        proof {
            assert(prev + spec_digits((n / 10) as nat) + seq![digit_char((n % 10) as nat)] =~= prev
                + spec_digits(n as nat));
        }
    } else {
        append_digit(out, n as u8);
    }
}

/// Appends `msg` to `out` with the four-space prefix inserted after every
/// newline, so that every line of `msg` but the first is indented.
fn append_indented(out: &mut String, msg: &str)
    ensures
        final(out)@ == old(out)@ + indent_rest(msg@),
{
    let ghost prev = out@;
    let n = msg.unicode_len();
    let mut start: usize = 0;
    let mut j: usize = 0;
    #[verifier::loop_isolation(false)]
    while j < n
        invariant
            start <= j <= n,
            out@ == prev + indent_rest(msg@.take(start as int)),
            forall|m: int| start <= m < j ==> msg@[m] != '\n',
        decreases n - j,
    {
        if msg.get_char(j) == '\n' {
            let seg = msg.substring_char(start, j);
            out.append(seg);
            out.append("\n    ");
            proof {
                reveal_strlit("\n    ");
                let pre = msg@.take(start as int);
                let mid = msg@.subrange(start as int, j as int);
                assert(newline_free(mid));
                lemma_indent_rest_flat(mid);
                lemma_indent_rest_concat(pre, mid);
                lemma_indent_rest_concat(pre + mid, seq!['\n']);
                assert(msg@.take(j as int + 1) =~= (pre + mid) + seq!['\n']);
                assert(seq!['\n'].drop_first() =~= Seq::<char>::empty());
                assert(indent_rest(Seq::<char>::empty()) =~= Seq::<char>::empty());
                assert(indent_rest(seq!['\n']) =~= seq!['\n'] + pad());
                assert("\n    "@ =~= seq!['\n'] + pad());
                assert(out@ =~= prev + indent_rest(msg@.take(j as int + 1)));
            }
            start = j + 1;
        }
        j = j + 1;
    }
    let seg = msg.substring_char(start, n);
    out.append(seg);
    proof {
        let pre = msg@.take(start as int);
        let mid = msg@.subrange(start as int, n as int);
        assert(newline_free(mid));
        lemma_indent_rest_flat(mid);
        lemma_indent_rest_concat(pre, mid);
        assert(pre + mid =~= msg@);
        assert(out@ =~= prev + indent_rest(msg@));
    }
}

/// Builds the block written for one cause: a newline, the ordinal marker
/// when `multi` holds, the four-space indent, then the indented message.
fn build_block(i: usize, multi: bool, msg: &str) -> (b: String)
    ensures
        b@ == spec_block(msg@, i as nat, multi),
{
    let mut b = String::new();
    b.append("\n");
    if multi {
        append_digits(&mut b, i);
        b.append(":");
    }
    b.append("    ");
    append_indented(&mut b, msg);
    proof {
        reveal_strlit("\n");
        reveal_strlit(":");
        reveal_strlit("    ");
        assert(b@ =~= spec_block(msg@, i as nat, multi));
    }
    b
}

/// A chain of error messages: the text of a root error followed by the texts
/// of its causes, outermost cause first.
pub struct ErrorChain {
    root: String,
    causes: Vec<String>,
}

impl ErrorChain {
    /// The root message.
    pub closed spec fn root_view(&self) -> Seq<char> {
        self.root@
    }

    /// The cause messages, outermost first.
    pub closed spec fn causes_view(&self) -> Seq<Seq<char>> {
        self.causes@.map_values(|c: String| c@)
    }

    /// The report this chain renders to.
    pub open spec fn report(&self) -> Seq<char> {
        spec_render(self.root_view(), self.causes_view())
    }

    /// A chain holding only a root message, with no cause.
    pub fn new(root: String) -> (c: ErrorChain)
        ensures
            c.root_view() == root@,
            c.causes_view() == Seq::<Seq<char>>::empty(),
    {
        let c = ErrorChain { root, causes: Vec::new() };
        proof {
            assert(c.causes_view() =~= Seq::<Seq<char>>::empty());
        }
        c
    }

    /// Appends one more cause at the inner end of the chain.
    pub fn push_cause(&mut self, cause: String)
        ensures
            final(self).root_view() == old(self).root_view(),
            final(self).causes_view() == old(self).causes_view().push(cause@),
    {
        let ghost prev = self.causes@;
        self.causes.push(cause);
        proof {
            assert(self.causes_view() =~= prev.map_values(|c: String| c@).push(cause@));
        }
    }

    /// How many causes the chain holds.
    pub fn cause_count(&self) -> (n: usize)
        ensures
            n == self.causes_view().len(),
    {
        self.causes.len()
    }

    /// Writes the report into `sink`: the root message; then, only when
    /// causes exist, the `Caused by:` header and one block per cause. A
    /// failed write is reported at once and nothing further is written, so
    /// the sink is left holding what it held before plus a prefix of the
    /// report. On an infallible sink the render always succeeds.
    #[verifier::loop_isolation(false)]
    pub fn render<S: Sink>(&self, sink: &mut S) -> (r: Result<(), WriteError>)
        ensures
            final(sink).infallible() == old(sink).infallible(),
            old(sink).infallible() ==> r is Ok,
            r is Ok ==> final(sink).contents() == old(sink).contents() + self.report(),
            r is Err ==> exists|n: int|
                0 <= n <= self.report().len() && final(sink).contents() == old(sink).contents()
                    + self.report().take(n),
    {
        let ghost init = sink.contents();
        let ghost init_inf = sink.infallible();
        let ghost full = self.report();
        let ghost rootv = self.root_view();
        let ghost causesv = self.causes_view();
        match sink.write_str(self.root.as_str()) {
            Ok(()) => {},
            Err(e) => {
                proof {
                    let n = choose|n: int|
                        0 <= n <= rootv.len() && sink.contents() == init + rootv.take(n);
                    assert(full.take(n) =~= rootv.take(n));
                    assert(sink.contents() == init + full.take(n));
                }
                return Err(e);
            },
        }
        if self.causes.len() == 0 {
            proof {
                assert(causesv.len() == 0);
                assert(full == rootv);
            }
            return Ok(());
        }
        let ghost multi_s = causesv.len() >= 2;
        match sink.write_str("\n\nCaused by:") {
            Ok(()) => {},
            Err(e) => {
                proof {
                    reveal_strlit("\n\nCaused by:");
                    assert("\n\nCaused by:"@ =~= caused_by_header());
                    let hdr = caused_by_header();
                    let sc = spec_causes(causesv, 0, multi_s);
                    let n = choose|n: int|
                        0 <= n <= hdr.len() && sink.contents() == (init + rootv) + hdr.take(n);
                    lemma_take_within_concat(rootv, hdr, sc, n);
                    assert(full == rootv + hdr + sc);
                    assert((init + rootv) + hdr.take(n) =~= init + (rootv + hdr.take(n)));
                    assert(sink.contents() == init + full.take(rootv.len() + n));
                }
                return Err(e);
            },
        }
        proof {
            reveal_strlit("\n\nCaused by:");
            assert("\n\nCaused by:"@ =~= caused_by_header());
        }
        let multi = self.causes.len() >= 2;
        let ghost mut done = rootv + caused_by_header();
        proof {
            assert(multi == multi_s);
            assert(sink.contents() == init + done) by {
                assert((init + rootv) + caused_by_header() =~= init + (rootv + caused_by_header()));
            };
            assert(causesv.skip(0) =~= causesv);
            assert(done + spec_causes(causesv.skip(0), 0, multi_s) =~= full);
        }
        let mut k: usize = 0;
        while k < self.causes.len()
            invariant
                k <= self.causes.len(),
                sink.infallible() == init_inf,
                sink.contents() == init + done,
                done + spec_causes(causesv.skip(k as int), k as nat, multi_s) == full,
            decreases self.causes.len() - k,
        {
            let block = build_block(k, multi, self.causes[k].as_str());
            let ghost bs = spec_block(causesv[k as int], k as nat, multi_s);
            let ghost tail = spec_causes(causesv.skip(k as int + 1), (k + 1) as nat, multi_s);
            proof {
                assert(causesv.skip(k as int)[0] == causesv[k as int]);
                assert(causesv.skip(k as int).drop_first() =~= causesv.skip(k as int + 1));
                assert(spec_causes(causesv.skip(k as int), k as nat, multi_s) == bs + tail);
                assert(block@ == bs);
            }
            match sink.write_str(block.as_str()) {
                Ok(()) => {
                    proof {
                        done = done + bs;
                        assert(done + tail =~= full);
                    }
                },
                Err(e) => {
                    proof {
                        let n = choose|n: int|
                            0 <= n <= bs.len() && sink.contents() == (init + done) + bs.take(n);
                        lemma_take_within_concat(done, bs, tail, n);
                        assert(full =~= done + bs + tail);
                        assert((init + done) + bs.take(n) =~= init + (done + bs.take(n)));
                        assert(sink.contents() == init + full.take(done.len() + n));
                    }
                    return Err(e);
                },
            }
            k = k + 1;
        }
        proof {
            assert(causesv.skip(k as int) =~= Seq::<Seq<char>>::empty());
            assert(done + spec_causes(causesv.skip(k as int), k as nat, multi_s) =~= done);
            assert(sink.contents() == init + full);
        }
        Ok(())
    }

    /// Renders into a fresh in-memory sink and hands the text back.
    pub fn render_to_string(&self) -> (out: String)
        ensures
            out@ == self.report(),
    {
        let mut s = StringSink::new();
        let r = self.render(&mut s);
        proof {
            assert(r is Ok);
            assert(Seq::<char>::empty() + self.report() =~= self.report());
        }
        s.into_string()
    }
}

} // verus!

//! The I/O context: a buffered token reader over in-memory content paired
//! with a buffered writer.
//!
//! The reader owns its content and a cursor; every read consumes from the
//! front, so a character handed out once is never re-delivered.  The writer
//! buffers written text until an explicit flush moves it to the sink.
//! Console and file plumbing stays outside: it hands content in as a string
//! and carries flushed text away.

use vstd::prelude::*;

use crate::parse::Token;
use crate::text::{Text, TextDebug, chars_to_string, str_to_chars};
use crate::tokens::{
    after_line, after_token, after_tokens, first_line, int_literals, is_delim, lines_of,
    next_token, nl_run_len, nth_token, strip_cr, token_run_len, trim_delims,
};

verus! {

/// Why an operation failed.  Every failure is final: no operation retries,
/// and no partial result is handed out.
#[derive(Clone, Copy, Debug, PartialEq, Eq, Structural)]
pub enum ErrorKind {
    /// The underlying byte source or sink failed to read, write or open.
    IoError,
    /// Token text that does not parse as the requested type.
    ParseError,
    /// Caller-level misuse, detected before it can corrupt state.
    PreconditionViolation,
}

pub fn is_delim_char(c: char) -> (r: bool)
    ensures
        r == is_delim(c),
{
    c == ' ' || c == '\t' || c == '\r' || c == '\n' || c == ','
}

/// An I/O context: one token reader over in-memory content, one buffered
/// writer.  Reads consume `remaining()`; writes grow `pending()` until a
/// flush moves it to `sunk()`.
pub struct Io {
    input: Vec<char>,
    pos: usize,
    out_pending: Vec<char>,
    out_done: Vec<char>,
}

impl Io {
    /// The content the reader has not yet consumed.
    pub closed spec fn remaining(self) -> Seq<char> {
        self.input@.skip(self.pos as int)
    }

    /// Written text not yet flushed to the sink.
    pub closed spec fn pending(self) -> Seq<char> {
        self.out_pending@
    }

    /// Text the writer has flushed to the sink, in submission order.
    pub closed spec fn sunk(self) -> Seq<char> {
        self.out_done@
    }

    /// The cursor never passes the end of the content.
    pub closed spec fn wf(self) -> bool {
        self.pos <= self.input@.len()
    }

    /// A context reading the given text, with an empty writer.
    pub fn from_str(input: &str) -> (io: Io)
        ensures
            io.wf(),
            io.remaining() == input@,
            io.pending() == Seq::<char>::empty(),
            io.sunk() == Seq::<char>::empty(),
    {
        let v = str_to_chars(input);
        proof {
            assert(v@.skip(0) =~= v@);
        }
        Io { input: v, pos: 0, out_pending: Vec::new(), out_done: Vec::new() }
    }

    /// A context reading the given owned string, with an empty writer.
    pub fn from_string(input: String) -> (io: Io)
        ensures
            io.wf(),
            io.remaining() == input@,
            io.pending() == Seq::<char>::empty(),
            io.sunk() == Seq::<char>::empty(),
    {
        Io::from_str(input.as_str())
    }

    /// Advance the cursor past the leading delimiter run.
    fn skip_delims(&mut self)
        requires
            old(self).wf(),
        ensures
            final(self).wf(),
            final(self).remaining() == trim_delims(old(self).remaining()),
            final(self).input == old(self).input,
            final(self).out_pending == old(self).out_pending,
            final(self).out_done == old(self).out_done,
    {
        let n = self.input.len();
        let mut pos = self.pos;
        while pos < n && is_delim_char(self.input[pos])
            invariant
                self.pos <= pos <= n,
                n == self.input@.len(),
                old(self).wf(),
                trim_delims(self.input@.skip(self.pos as int)) == trim_delims(
                    self.input@.skip(pos as int),
                ),
            decreases n - pos,
        {
            proof {
                let rem = self.input@.skip(pos as int);
                assert(rem[0] == self.input@[pos as int]);
                assert(rem.drop_first() =~= self.input@.skip(pos as int + 1));
            }
            pos = pos + 1;
        }
        proof {
            let rem = self.input@.skip(pos as int);
            if pos < n {
                assert(rem[0] == self.input@[pos as int]);
                assert(!is_delim(rem[0]));
            }
            assert(trim_delims(rem) == rem);
        }
        self.pos = pos;
    }

    /// Extract the next token's characters: skip leading delimiters, then
    /// collect the maximal delimiter-free run.
    fn read_token_chars(&mut self) -> (t: Vec<char>)
        requires
            old(self).wf(),
        ensures
            final(self).wf(),
            t@ == next_token(old(self).remaining()),
            final(self).remaining() == after_token(old(self).remaining()),
            final(self).input == old(self).input,
            final(self).out_pending == old(self).out_pending,
            final(self).out_done == old(self).out_done,
    {
        let ghost orig = self.remaining();
        self.skip_delims();
        let ghost tstart = self.pos as int;
        let n = self.input.len();
        let mut pos = self.pos;
        let mut t: Vec<char> = Vec::new();
        while pos < n && !is_delim_char(self.input[pos])
            invariant
                tstart == self.pos,
                tstart <= pos <= n,
                n == self.input@.len(),
                trim_delims(orig) == self.input@.skip(tstart),
                t@ == self.input@.subrange(tstart, pos as int),
                forall|j: int| tstart <= j < pos ==> !is_delim(#[trigger] self.input@[j]),
            decreases n - pos,
        {
            let c = self.input[pos];
            t.push(c);
            pos = pos + 1;
            proof {
                assert(t@ =~= self.input@.subrange(tstart, pos as int));
            }
        }
        proof {
            let tr = trim_delims(orig);
            let run = pos - tstart;
            assert forall|j: int| 0 <= j < run implies !is_delim(#[trigger] tr[j]) by {
                assert(tr[j] == self.input@[tstart + j]);
            }
            if pos < n {
                assert(tr[run] == self.input@[pos as int]);
            }
            crate::tokens::lemma_token_run_len_is(tr, run);
            assert(t@ =~= tr.take(token_run_len(tr) as int));
            assert(self.input@.skip(pos as int) =~= tr.skip(token_run_len(tr) as int));
        }
        self.pos = pos;
        t
    }

    /// Read the next token and parse it as `T`.  On exhausted content the
    /// token is empty, which fails to parse for every type but `String`.
    pub fn read<T: Token>(&mut self) -> (r: Result<T, ErrorKind>)
        requires
            old(self).wf(),
        ensures
            final(self).wf(),
            final(self).remaining() == after_token(old(self).remaining()),
            final(self).pending() == old(self).pending(),
            final(self).sunk() == old(self).sunk(),
            r matches Ok(v) ==> T::accepts(next_token(old(self).remaining()))
                && T::is_parse_of(next_token(old(self).remaining()), v),
            r matches Err(e) ==> !T::accepts(next_token(old(self).remaining())) && e
                == ErrorKind::ParseError,
    {
        let t = self.read_token_chars();
        match T::parse_token(&t) {
            Some(v) => Ok(v),
            None => Err(ErrorKind::ParseError),
        }
    }

    /// Take every character the reader still holds, in order.
    fn drain_chars(&mut self) -> (v: Vec<char>)
        requires
            old(self).wf(),
        ensures
            final(self).wf(),
            v@ == old(self).remaining(),
            final(self).remaining().len() == 0,
            final(self).out_pending == old(self).out_pending,
            final(self).out_done == old(self).out_done,
    {
        let ghost start = self.pos as int;
        let n = self.input.len();
        let mut pos = self.pos;
        let mut v: Vec<char> = Vec::new();
        while pos < n
            invariant
                start == self.pos,
                start <= pos <= n,
                n == self.input@.len(),
                v@ == self.input@.subrange(start, pos as int),
            decreases n - pos,
        {
            let c = self.input[pos];
            v.push(c);
            pos = pos + 1;
            proof {
                assert(v@ =~= self.input@.subrange(start, pos as int));
            }
        }
        proof {
            assert(v@ =~= self.input@.skip(start));
        }
        self.pos = pos;
        v
    }

    /// Drain the remaining content fully and return it verbatim, with no
    /// delimiter skipping.
    pub fn read_all(&mut self) -> (r: String)
        requires
            old(self).wf(),
        ensures
            final(self).wf(),
            r@ == old(self).remaining(),
            final(self).remaining().len() == 0,
            final(self).pending() == old(self).pending(),
            final(self).sunk() == old(self).sunk(),
    {
        let v = self.drain_chars();
        chars_to_string(&v)
    }

    /// Read up to the next line feed or carriage return without skipping
    /// leading delimiters; the line terminator is consumed and discarded.
    pub fn read_line(&mut self) -> (r: String)
        requires
            old(self).wf(),
        ensures
            final(self).wf(),
            r@ == first_line(old(self).remaining()),
            final(self).remaining() == after_line(old(self).remaining()),
            final(self).pending() == old(self).pending(),
            final(self).sunk() == old(self).sunk(),
    {
        let ghost orig = self.remaining();
        let ghost start = self.pos as int;
        let n = self.input.len();
        let mut pos = self.pos;
        let mut v: Vec<char> = Vec::new();
        while pos < n && self.input[pos] != '\n' && self.input[pos] != '\r'
            invariant
                start == self.pos,
                start <= pos <= n,
                n == self.input@.len(),
                orig == self.input@.skip(start),
                v@ == self.input@.subrange(start, pos as int),
                forall|j: int|
                    start <= j < pos ==> (#[trigger] self.input@[j]) != '\n' && self.input@[j]
                        != '\r',
            decreases n - pos,
        {
            let c = self.input[pos];
            v.push(c);
            pos = pos + 1;
            proof {
                assert(v@ =~= self.input@.subrange(start, pos as int));
            }
        }
        proof {
            let run = pos - start;
            assert forall|j: int| 0 <= j < run implies (#[trigger] orig[j]) != '\n' && orig[j]
                != '\r' by {
                assert(orig[j] == self.input@[start + j]);
            }
            if pos < n {
                assert(orig[run] == self.input@[pos as int]);
            }
            crate::tokens::lemma_line_run_len_is(orig, run);
            assert(v@ =~= first_line(orig));
        }
        if pos < n {
            pos = pos + 1;
            proof {
                assert(self.input@.skip(pos as int) =~= after_line(orig));
            }
        } else {
            proof {
                assert(self.input@.skip(pos as int) =~= after_line(orig));
            }
        }
        self.pos = pos;
        chars_to_string(&v)
    }

    /// Skip leading delimiters, then return exactly the next character
    /// without consuming more.  Fails only on exhausted content.
    pub fn read_char(&mut self) -> (r: Result<char, ErrorKind>)
        requires
            old(self).wf(),
        ensures
            final(self).wf(),
            final(self).pending() == old(self).pending(),
            final(self).sunk() == old(self).sunk(),
            trim_delims(old(self).remaining()).len() > 0 ==> r == Ok::<char, ErrorKind>(
                trim_delims(old(self).remaining())[0],
            ) && final(self).remaining() == trim_delims(old(self).remaining()).drop_first(),
            trim_delims(old(self).remaining()).len() == 0 ==> r == Err::<char, ErrorKind>(
                ErrorKind::ParseError,
            ) && final(self).remaining().len() == 0,
    {
        self.skip_delims();
        let n = self.input.len();
        if self.pos < n {
            let c = self.input[self.pos];
            proof {
                assert(self.remaining()[0] == self.input@[self.pos as int]);
                assert(self.remaining().drop_first() =~= self.input@.skip(self.pos as int + 1));
            }
            self.pos = self.pos + 1;
            Ok(c)
        } else {
            Err(ErrorKind::ParseError)
        }
    }

    /// Read a 1-based index token and convert it to 0-based.  A token that
    /// parses to zero is caller misuse and is rejected before underflow.
    pub fn idx(&mut self) -> (r: Result<usize, ErrorKind>)
        requires
            old(self).wf(),
        ensures
            final(self).wf(),
            final(self).remaining() == after_token(old(self).remaining()),
            final(self).pending() == old(self).pending(),
            final(self).sunk() == old(self).sunk(),
            ({
                let tok = next_token(old(self).remaining());
                match crate::numeric::parse_usize_text(tok) {
                    Some(v) => if v >= 1 {
                        r == Ok::<usize, ErrorKind>((v - 1) as usize)
                    } else {
                        r == Err::<usize, ErrorKind>(ErrorKind::PreconditionViolation)
                    },
                    None => r == Err::<usize, ErrorKind>(ErrorKind::ParseError),
                }
            }),
    {
        match self.read::<usize>() {
            Ok(v) => if v >= 1 {
                Ok(v - 1)
            } else {
                Err(ErrorKind::PreconditionViolation)
            },
            Err(e) => Err(e),
        }
    }

    /// Read one token and explode it into its characters, in order.
    pub fn chars(&mut self) -> (r: Vec<char>)
        requires
            old(self).wf(),
        ensures
            final(self).wf(),
            r@ == next_token(old(self).remaining()),
            final(self).remaining() == after_token(old(self).remaining()),
            final(self).pending() == old(self).pending(),
            final(self).sunk() == old(self).sunk(),
    {
        self.read_token_chars()
    }

    /// Append the value's canonical text to the write buffer; nothing
    /// reaches the sink yet.
    pub fn write<S: Text>(&mut self, s: S)
        requires
            old(self).wf(),
        ensures
            final(self).wf(),
            final(self).remaining() == old(self).remaining(),
            final(self).pending() == old(self).pending() + s.text(),
            final(self).sunk() == old(self).sunk(),
    {
        let mut t = s.text_chars();
        self.out_pending.append(&mut t);
    }

    /// Append the value's structural text to the write buffer, for values
    /// without a canonical one-line form.
    pub fn writed<S: TextDebug>(&mut self, s: S)
        requires
            old(self).wf(),
        ensures
            final(self).wf(),
            final(self).remaining() == old(self).remaining(),
            final(self).pending() == old(self).pending() + s.dtext(),
            final(self).sunk() == old(self).sunk(),
    {
        let mut t = s.dtext_chars();
        self.out_pending.append(&mut t);
    }

    /// Append a single line feed to the write buffer without flushing.
    pub fn nl(&mut self)
        requires
            old(self).wf(),
        ensures
            final(self).wf(),
            final(self).remaining() == old(self).remaining(),
            final(self).pending() == old(self).pending() + seq!['\n'],
            final(self).sunk() == old(self).sunk(),
    {
        self.write('\n');
    }

    /// Move every buffered character to the sink, in submission order.
    /// Comparatively expensive: avoid calling it in tight loops.
    pub fn flush(&mut self)
        requires
            old(self).wf(),
        ensures
            final(self).wf(),
            final(self).remaining() == old(self).remaining(),
            final(self).pending().len() == 0,
            final(self).sunk() == old(self).sunk() + old(self).pending(),
    {
        let mut moved: Vec<char> = Vec::new();
        core::mem::swap(&mut moved, &mut self.out_pending);
        self.out_done.append(&mut moved);
    }

    /// Write the value's canonical text, append a line feed, then flush.
    pub fn writeln<S: Text>(&mut self, s: S)
        requires
            old(self).wf(),
        ensures
            final(self).wf(),
            final(self).remaining() == old(self).remaining(),
            final(self).pending().len() == 0,
            final(self).sunk() == old(self).sunk() + old(self).pending() + s.text() + seq!['\n'],
    {
        self.write(s);
        self.nl();
        self.flush();
    }

    /// Write the value's structural text, append a line feed, then flush.
    pub fn writedln<S: TextDebug>(&mut self, s: S)
        requires
            old(self).wf(),
        ensures
            final(self).wf(),
            final(self).remaining() == old(self).remaining(),
            final(self).pending().len() == 0,
            final(self).sunk() == old(self).sunk() + old(self).pending() + s.dtext() + seq!['\n'],
    {
        self.writed(s);
        self.nl();
        self.flush();
    }

    /// Read `n` tokens of one type, preserving call order.
    pub fn vec<T: Token>(&mut self, n: usize) -> (r: Result<Vec<T>, ErrorKind>)
        requires
            old(self).wf(),
        ensures
            final(self).wf(),
            final(self).pending() == old(self).pending(),
            final(self).sunk() == old(self).sunk(),
            r matches Ok(v) ==> v@.len() == n && (forall|i: int|
                0 <= i < n ==> T::accepts(#[trigger] nth_token(old(self).remaining(), i as nat)))
                && (forall|i: int|
                0 <= i < n ==> T::is_parse_of(
                    nth_token(old(self).remaining(), i as nat),
                    #[trigger] v@[i],
                )) && final(self).remaining() == after_tokens(old(self).remaining(), n as nat),
            r matches Err(e) ==> e == ErrorKind::ParseError && (exists|j: int|
                0 <= j < n && !T::accepts(#[trigger] nth_token(old(self).remaining(), j as nat))
                    && (forall|k: int|
                    0 <= k < j ==> T::accepts(
                        #[trigger] nth_token(old(self).remaining(), k as nat),
                    )) && final(self).remaining() == after_tokens(
                    old(self).remaining(),
                    (j + 1) as nat,
                )),
    {
        let ghost orig = old(self).remaining();
        let mut out: Vec<T> = Vec::new();
        let mut i: usize = 0;
        while i < n
            invariant
                i <= n,
                self.wf(),
                orig == old(self).remaining(),
                self.remaining() == after_tokens(orig, i as nat),
                self.pending() == old(self).pending(),
                self.sunk() == old(self).sunk(),
                out@.len() == i,
                forall|k: int| 0 <= k < i ==> T::accepts(#[trigger] nth_token(orig, k as nat)),
                forall|k: int|
                    0 <= k < i ==> T::is_parse_of(nth_token(orig, k as nat), #[trigger] out@[k]),
            decreases n - i,
        {
            proof {
                crate::tokens::lemma_after_tokens_snoc(orig, i as nat);
            }
            match self.read::<T>() {
                Ok(v) => {
                    let ghost pre = out@;
                    out.push(v);
                    proof {
                        assert(T::accepts(nth_token(orig, i as nat)));
                        assert forall|k: int|
                            0 <= k < i + 1 implies T::is_parse_of(
                            nth_token(orig, k as nat),
                            #[trigger] out@[k],
                        ) by {
                            if k < i {
                                assert(out@[k] == pre[k]);
                                assert(T::is_parse_of(nth_token(orig, k as nat), pre[k]));
                            } else {
                                assert(out@[k] == v);
                            }
                        }
                    }
                },
                Err(_) => {
                    proof {
                        assert(!T::accepts(nth_token(orig, i as nat)));
                    }
                    return Err(ErrorKind::ParseError);
                },
            }
            i = i + 1;
        }
        Ok(out)
    }

    /// Drain the remaining content and return its lines, in order.
    pub fn lines(&mut self) -> (r: Vec<String>)
        requires
            old(self).wf(),
        ensures
            final(self).wf(),
            final(self).remaining().len() == 0,
            final(self).pending() == old(self).pending(),
            final(self).sunk() == old(self).sunk(),
            r@.map_values(|l: String| l@) == lines_of(old(self).remaining()),
    {
        let v = self.drain_chars();
        split_lines(&v)
    }

    /// Drain the remaining content and produce one independent child
    /// context per line, each owning an in-memory copy of exactly that
    /// line's text, with a fresh writer and no delimiter-skip state
    /// carried over.  The sequence is finite and backed by this one-time
    /// drain: the parent is fully consumed.
    pub fn line_io(&mut self) -> (r: Vec<Io>)
        requires
            old(self).wf(),
        ensures
            final(self).wf(),
            final(self).remaining().len() == 0,
            final(self).pending() == old(self).pending(),
            final(self).sunk() == old(self).sunk(),
            r@.len() == lines_of(old(self).remaining()).len(),
            forall|i: int|
                0 <= i < r@.len() ==> (#[trigger] r@[i]).wf() && r@[i].remaining() == lines_of(
                    old(self).remaining(),
                )[i] && r@[i].pending().len() == 0 && r@[i].sunk().len() == 0,
    {
        let ghost models = lines_of(old(self).remaining());
        let ls = self.lines();
        let mut r: Vec<Io> = Vec::new();
        let mut i: usize = 0;
        while i < ls.len()
            invariant
                i <= ls@.len(),
                ls@.map_values(|l: String| l@) == models,
                r@.len() == i,
                forall|k: int|
                    0 <= k < i ==> (#[trigger] r@[k]).wf() && r@[k].remaining() == models[k]
                        && r@[k].pending().len() == 0 && r@[k].sunk().len() == 0,
            decreases ls@.len() - i,
        {
            let s = ls[i].clone();
            proof {
                assert(s@ == ls@.map_values(|l: String| l@)[i as int]);
            }
            let child = Io::from_string(s);
            r.push(child);
            i = i + 1;
        }
        r
    }

    /// Drain the remaining content and parse every maximal match of an
    /// optional minus sign followed by decimal digits, left to right.
    pub fn nums<T: Token>(&mut self) -> (r: Result<Vec<T>, ErrorKind>)
        requires
            old(self).wf(),
        ensures
            final(self).wf(),
            final(self).remaining().len() == 0,
            final(self).pending() == old(self).pending(),
            final(self).sunk() == old(self).sunk(),
            r matches Ok(v) ==> v@.len() == int_literals(old(self).remaining()).len() && (forall|
                i: int,
            |
                0 <= i < v@.len() ==> T::accepts(
                    #[trigger] int_literals(old(self).remaining())[i],
                )) && (forall|i: int|
                0 <= i < v@.len() ==> T::is_parse_of(
                    int_literals(old(self).remaining())[i],
                    #[trigger] v@[i],
                )),
            r matches Err(e) ==> e == ErrorKind::ParseError && (exists|j: int|
                0 <= j < int_literals(old(self).remaining()).len() && !T::accepts(
                    #[trigger] int_literals(old(self).remaining())[j],
                )),
    {
        let content = self.read_all();
        let ghost lits = int_literals(old(self).remaining());
        let found = scan_int_literals(content.as_str());
        let mut out: Vec<T> = Vec::new();
        let mut i: usize = 0;
        while i < found.len()
            invariant
                i <= found@.len(),
                self.wf(),
                self.remaining().len() == 0,
                self.pending() == old(self).pending(),
                self.sunk() == old(self).sunk(),
                lits == int_literals(old(self).remaining()),
                found@.map_values(|m: String| m@) == lits,
                out@.len() == i,
                forall|k: int| 0 <= k < i ==> T::accepts(#[trigger] lits[k]),
                forall|k: int| 0 <= k < i ==> T::is_parse_of(lits[k], #[trigger] out@[k]),
            decreases found@.len() - i,
        {
            let t = str_to_chars(found[i].as_str());
            proof {
                assert(t@ == found@.map_values(|m: String| m@)[i as int]);
            }
            match T::parse_token(&t) {
                Some(v) => {
                    let ghost pre = out@;
                    out.push(v);
                    proof {
                        assert(T::accepts(lits[i as int]));
                        assert forall|k: int|
                            0 <= k < i + 1 implies T::is_parse_of(
                            lits[k],
                            #[trigger] out@[k],
                        ) by {
                            if k < i {
                                assert(out@[k] == pre[k]);
                                assert(T::is_parse_of(lits[k], pre[k]));
                            } else {
                                assert(out@[k] == v);
                                assert(t@ == lits[k]);
                            }
                        }
                    }
                },
                None => {
                    proof {
                        assert(!T::accepts(lits[i as int]));
                    }
                    return Err(ErrorKind::ParseError);
                },
            }
            i = i + 1;
        }
        Ok(out)
    }

    /// Carry the flushed text away to the real sink: return it and leave
    /// the sink record empty.
    pub fn take_flushed(&mut self) -> (r: String)
        requires
            old(self).wf(),
        ensures
            final(self).wf(),
            final(self).remaining() == old(self).remaining(),
            final(self).pending() == old(self).pending(),
            final(self).sunk().len() == 0,
            r@ == old(self).sunk(),
    {
        let s = chars_to_string(&self.out_done);
        self.out_done.clear();
        s
    }

    /// Read one token per component type, in left-to-right declared order,
    /// and hand them back as a tuple.
    pub fn tuple<T: Tuple>(&mut self) -> (r: Result<T, ErrorKind>)
        requires
            old(self).wf(),
        ensures
            final(self).wf(),
            final(self).pending() == old(self).pending(),
            final(self).sunk() == old(self).sunk(),
            r matches Ok(v) ==> T::accepts_all(old(self).remaining()) && T::is_read_of(
                old(self).remaining(),
                v,
            ) && final(self).remaining() == after_tokens(old(self).remaining(), T::arity()),
            r matches Err(e) ==> !T::accepts_all(old(self).remaining()) && e
                == ErrorKind::ParseError && (exists|k: nat|
                0 < k <= T::arity() && final(self).remaining() == #[trigger] after_tokens(
                    old(self).remaining(),
                    k,
                )),
    {
        T::read_from(self)
    }
}

/// Split drained content into its lines.
fn split_lines(v: &Vec<char>) -> (r: Vec<String>)
    ensures
        r@.map_values(|l: String| l@) == lines_of(v@),
{
    let n = v.len();
    let mut r: Vec<String> = Vec::new();
    let mut i: usize = 0;
    proof {
        assert(v@.skip(0) =~= v@);
    }
    while i < n
        invariant
            i <= n,
            n == v@.len(),
            lines_of(v@) == r@.map_values(|l: String| l@) + lines_of(v@.skip(i as int)),
        decreases n - i,
    {
        let ghost seg = v@.skip(i as int);
        let mut j = i;
        let mut piece: Vec<char> = Vec::new();
        while j < n && v[j] != '\n'
            invariant
                i <= j <= n,
                n == v@.len(),
                piece@ == v@.subrange(i as int, j as int),
                forall|m: int| i <= m < j ==> (#[trigger] v@[m]) != '\n',
            decreases n - j,
        {
            let c = v[j];
            piece.push(c);
            j = j + 1;
            proof {
                assert(piece@ =~= v@.subrange(i as int, j as int));
            }
        }
        proof {
            let run = j - i;
            assert forall|m: int| 0 <= m < run implies (#[trigger] seg[m]) != '\n' by {
                assert(seg[m] == v@[i + m]);
            }
            if j < n {
                assert(seg[run] == v@[j as int]);
            }
            crate::tokens::lemma_nl_run_len_is(seg, run);
            assert(piece@ =~= seg.take(run));
        }
        let ghost pre_map = r@.map_values(|l: String| l@);
        let ghost run = j - i;
        if j < n {
            if piece.len() > 0 && piece[piece.len() - 1] == '\r' {
                piece.pop();
            }
            proof {
                assert(piece@ == strip_cr(seg.take(run)));
            }
            let s = chars_to_string(&piece);
            r.push(s);
            i = j + 1;
            proof {
                assert(nl_run_len(seg) < seg.len());
                assert(lines_of(seg) == seq![strip_cr(seg.take(run))] + lines_of(
                    seg.skip(run + 1),
                ));
                assert(seg.skip(run + 1) =~= v@.skip(i as int));
                assert(r@.map_values(|l: String| l@) =~= pre_map.push(s@));
                assert(r@.map_values(|l: String| l@) + lines_of(v@.skip(i as int)) =~= lines_of(
                    v@,
                ));
            }
        } else {
            let s = chars_to_string(&piece);
            r.push(s);
            i = j;
            proof {
                assert(piece@ =~= seg);
                assert(nl_run_len(seg) == seg.len());
                assert(lines_of(seg) == seq![seg]);
                assert(v@.skip(i as int).len() == 0);
                assert(lines_of(v@.skip(i as int)) == Seq::<Seq<char>>::empty());
                assert(r@.map_values(|l: String| l@) =~= pre_map.push(s@));
                assert(r@.map_values(|l: String| l@) + lines_of(v@.skip(i as int)) =~= lines_of(
                    v@,
                ));
            }
        }
    }
    proof {
        assert(v@.skip(n as int).len() == 0);
        assert(lines_of(v@.skip(n as int)) == Seq::<Seq<char>>::empty());
        assert(r@.map_values(|l: String| l@) =~= lines_of(v@));
    }
    r
}

/// Relies on the regex crate (`Regex::new` on the pattern of an optional
/// minus sign followed by one or more ASCII decimal digits, then
/// `find_iter`): matching is greedy, non-overlapping and leftmost-first,
/// which yields exactly the maximal matches that `int_literals` describes.
/// The explicit class `[0-9]` keeps the match ASCII: the shorthand digit
/// class would be Unicode-aware and match digits `int_literals` refuses.
#[verifier::external_body]
fn scan_int_literals(s: &str) -> (r: Vec<String>)
    ensures
        r@.map_values(|m: String| m@) == int_literals(s@),
{
    let re = regex::Regex::new(r"-?[0-9]+").unwrap();
    re.find_iter(s).map(|m| m.as_str().to_string()).collect()
}

/// A tuple readable component by component, one token each, in declared
/// order.  Implemented for tuples of two to six token-readable types.
pub trait Tuple: Sized {
    /// How many tokens one read consumes.
    spec fn arity() -> nat;

    /// Do the next tokens parse as the component types, in order?
    spec fn accepts_all(s: Seq<char>) -> bool;

    /// Is `v` the tuple that the next tokens denote?
    spec fn is_read_of(s: Seq<char>, v: Self) -> bool;

    /// Read one token per component, left to right.
    fn read_from(io: &mut Io) -> (r: Result<Self, ErrorKind>)
        requires
            old(io).wf(),
        ensures
            final(io).wf(),
            final(io).pending() == old(io).pending(),
            final(io).sunk() == old(io).sunk(),
            r matches Ok(v) ==> Self::accepts_all(old(io).remaining()) && Self::is_read_of(
                old(io).remaining(),
                v,
            ) && final(io).remaining() == after_tokens(old(io).remaining(), Self::arity()),
            r matches Err(e) ==> !Self::accepts_all(old(io).remaining()) && e
                == ErrorKind::ParseError && (exists|k: nat|
                0 < k <= Self::arity() && final(io).remaining() == #[trigger] after_tokens(
                    old(io).remaining(),
                    k,
                )),
    ;
}

impl<T1: Token, T2: Token> Tuple for (T1, T2) {
    open spec fn arity() -> nat {
        2
    }

    open spec fn accepts_all(s: Seq<char>) -> bool {
        T1::accepts(nth_token(s, 0)) && T2::accepts(nth_token(s, 1))
    }

    open spec fn is_read_of(s: Seq<char>, v: Self) -> bool {
        T1::is_parse_of(nth_token(s, 0), v.0) && T2::is_parse_of(nth_token(s, 1), v.1)
    }

    fn read_from(io: &mut Io) -> (r: Result<Self, ErrorKind>) {
        let ghost orig = io.remaining();
        proof {
            assert(after_tokens(orig, 0) == orig);
            crate::tokens::lemma_after_tokens_snoc(orig, 0);
            crate::tokens::lemma_after_tokens_snoc(orig, 1);
        }
        let t1 = match io.read::<T1>() {
            Ok(v) => v,
            Err(e) => {
                return Err(e);
            },
        };
        let t2 = match io.read::<T2>() {
            Ok(v) => v,
            Err(e) => {
                return Err(e);
            },
        };
        Ok((t1, t2))
    }
}

impl<T1: Token, T2: Token, T3: Token> Tuple for (T1, T2, T3) {
    open spec fn arity() -> nat {
        3
    }

    open spec fn accepts_all(s: Seq<char>) -> bool {
        T1::accepts(nth_token(s, 0)) && T2::accepts(nth_token(s, 1)) && T3::accepts(
            nth_token(s, 2),
        )
    }

    open spec fn is_read_of(s: Seq<char>, v: Self) -> bool {
        T1::is_parse_of(nth_token(s, 0), v.0) && T2::is_parse_of(nth_token(s, 1), v.1)
            && T3::is_parse_of(nth_token(s, 2), v.2)
    }

    fn read_from(io: &mut Io) -> (r: Result<Self, ErrorKind>) {
        let ghost orig = io.remaining();
        proof {
            assert(after_tokens(orig, 0) == orig);
            crate::tokens::lemma_after_tokens_snoc(orig, 0);
            crate::tokens::lemma_after_tokens_snoc(orig, 1);
            crate::tokens::lemma_after_tokens_snoc(orig, 2);
        }
        let t1 = match io.read::<T1>() {
            Ok(v) => v,
            Err(e) => {
                return Err(e);
            },
        };
        let t2 = match io.read::<T2>() {
            Ok(v) => v,
            Err(e) => {
                return Err(e);
            },
        };
        let t3 = match io.read::<T3>() {
            Ok(v) => v,
            Err(e) => {
                return Err(e);
            },
        };
        Ok((t1, t2, t3))
    }
}

impl<T1: Token, T2: Token, T3: Token, T4: Token> Tuple for (T1, T2, T3, T4) {
    open spec fn arity() -> nat {
        4
    }

    open spec fn accepts_all(s: Seq<char>) -> bool {
        T1::accepts(nth_token(s, 0)) && T2::accepts(nth_token(s, 1)) && T3::accepts(
            nth_token(s, 2),
        ) && T4::accepts(nth_token(s, 3))
    }

    open spec fn is_read_of(s: Seq<char>, v: Self) -> bool {
        T1::is_parse_of(nth_token(s, 0), v.0) && T2::is_parse_of(nth_token(s, 1), v.1)
            && T3::is_parse_of(nth_token(s, 2), v.2) && T4::is_parse_of(nth_token(s, 3), v.3)
    }

    fn read_from(io: &mut Io) -> (r: Result<Self, ErrorKind>) {
        let ghost orig = io.remaining();
        proof {
            assert(after_tokens(orig, 0) == orig);
            crate::tokens::lemma_after_tokens_snoc(orig, 0);
            crate::tokens::lemma_after_tokens_snoc(orig, 1);
            crate::tokens::lemma_after_tokens_snoc(orig, 2);
            crate::tokens::lemma_after_tokens_snoc(orig, 3);
        }
        let t1 = match io.read::<T1>() {
            Ok(v) => v,
            Err(e) => {
                return Err(e);
            },
        };
        let t2 = match io.read::<T2>() {
            Ok(v) => v,
            Err(e) => {
                return Err(e);
            },
        };
        let t3 = match io.read::<T3>() {
            Ok(v) => v,
            Err(e) => {
                return Err(e);
            },
        };
        let t4 = match io.read::<T4>() {
            Ok(v) => v,
            Err(e) => {
                return Err(e);
            },
        };
        Ok((t1, t2, t3, t4))
    }
}

impl<T1: Token, T2: Token, T3: Token, T4: Token, T5: Token> Tuple for (T1, T2, T3, T4, T5) {
    open spec fn arity() -> nat {
        5
    }

    open spec fn accepts_all(s: Seq<char>) -> bool {
        T1::accepts(nth_token(s, 0)) && T2::accepts(nth_token(s, 1)) && T3::accepts(
            nth_token(s, 2),
        ) && T4::accepts(nth_token(s, 3)) && T5::accepts(nth_token(s, 4))
    }

    open spec fn is_read_of(s: Seq<char>, v: Self) -> bool {
        T1::is_parse_of(nth_token(s, 0), v.0) && T2::is_parse_of(nth_token(s, 1), v.1)
            && T3::is_parse_of(nth_token(s, 2), v.2) && T4::is_parse_of(nth_token(s, 3), v.3)
            && T5::is_parse_of(nth_token(s, 4), v.4)
    }

    fn read_from(io: &mut Io) -> (r: Result<Self, ErrorKind>) {
        let ghost orig = io.remaining();
        proof {
            assert(after_tokens(orig, 0) == orig);
            crate::tokens::lemma_after_tokens_snoc(orig, 0);
            crate::tokens::lemma_after_tokens_snoc(orig, 1);
            crate::tokens::lemma_after_tokens_snoc(orig, 2);
            crate::tokens::lemma_after_tokens_snoc(orig, 3);
            crate::tokens::lemma_after_tokens_snoc(orig, 4);
        }
        let t1 = match io.read::<T1>() {
            Ok(v) => v,
            Err(e) => {
                return Err(e);
            },
        };
        let t2 = match io.read::<T2>() {
            Ok(v) => v,
            Err(e) => {
                return Err(e);
            },
        };
        let t3 = match io.read::<T3>() {
            Ok(v) => v,
            Err(e) => {
                return Err(e);
            },
        };
        let t4 = match io.read::<T4>() {
            Ok(v) => v,
            Err(e) => {
                return Err(e);
            },
        };
        let t5 = match io.read::<T5>() {
            Ok(v) => v,
            Err(e) => {
                return Err(e);
            },
        };
        Ok((t1, t2, t3, t4, t5))
    }
}

impl<T1: Token, T2: Token, T3: Token, T4: Token, T5: Token, T6: Token> Tuple for (
    T1,
    T2,
    T3,
    T4,
    T5,
    T6,
) {
    open spec fn arity() -> nat {
        6
    }

    open spec fn accepts_all(s: Seq<char>) -> bool {
        T1::accepts(nth_token(s, 0)) && T2::accepts(nth_token(s, 1)) && T3::accepts(
            nth_token(s, 2),
        ) && T4::accepts(nth_token(s, 3)) && T5::accepts(nth_token(s, 4)) && T6::accepts(
            nth_token(s, 5),
        )
    }

    open spec fn is_read_of(s: Seq<char>, v: Self) -> bool {
        T1::is_parse_of(nth_token(s, 0), v.0) && T2::is_parse_of(nth_token(s, 1), v.1)
            && T3::is_parse_of(nth_token(s, 2), v.2) && T4::is_parse_of(nth_token(s, 3), v.3)
            && T5::is_parse_of(nth_token(s, 4), v.4) && T6::is_parse_of(nth_token(s, 5), v.5)
    }

    fn read_from(io: &mut Io) -> (r: Result<Self, ErrorKind>) {
        let ghost orig = io.remaining();
        proof {
            assert(after_tokens(orig, 0) == orig);
            crate::tokens::lemma_after_tokens_snoc(orig, 0);
            crate::tokens::lemma_after_tokens_snoc(orig, 1);
            crate::tokens::lemma_after_tokens_snoc(orig, 2);
            crate::tokens::lemma_after_tokens_snoc(orig, 3);
            crate::tokens::lemma_after_tokens_snoc(orig, 4);
            crate::tokens::lemma_after_tokens_snoc(orig, 5);
        }
        let t1 = match io.read::<T1>() {
            Ok(v) => v,
            Err(e) => {
                return Err(e);
            },
        };
        let t2 = match io.read::<T2>() {
            Ok(v) => v,
            Err(e) => {
                return Err(e);
            },
        };
        let t3 = match io.read::<T3>() {
            Ok(v) => v,
            Err(e) => {
                return Err(e);
            },
        };
        let t4 = match io.read::<T4>() {
            Ok(v) => v,
            Err(e) => {
                return Err(e);
            },
        };
        let t5 = match io.read::<T5>() {
            Ok(v) => v,
            Err(e) => {
                return Err(e);
            },
        };
        let t6 = match io.read::<T6>() {
            Ok(v) => v,
            Err(e) => {
                return Err(e);
            },
        };
        Ok((t1, t2, t3, t4, t5, t6))
    }
}

} // verus!

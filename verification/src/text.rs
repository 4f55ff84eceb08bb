//! Canonical and debug text forms of writable values, and the conversions
//! between `String` and character vectors that the reader and writer use.

use vstd::prelude::*;
use vstd::string::StringExecFns;

use crate::numeric::{dec_digits, int_text, u64_to_chars, i64_to_chars};

verus! {

broadcast use vstd::string::axiom_spec_iter, vstd::string::next_postcondition;

/// Collect the characters of a string slice, in order.
pub(crate) fn str_to_chars(s: &str) -> (r: Vec<char>)
    ensures
        r@ == s@,
{
    let mut it = s.chars();
    let mut v: Vec<char> = Vec::new();
    loop
        invariant
            vstd::std_specs::iter::IteratorSpec::obeys_prophetic_iter_laws(&it),
            vstd::std_specs::iter::IteratorSpec::decrease(&it) is Some,
            v@ + vstd::std_specs::iter::IteratorSpec::remaining(&it) == s@,
        ensures
            v@ == s@,
        decreases vstd::std_specs::iter::IteratorSpec::decrease(&it)->0,
    {
        let ghost pre = v@;
        let ghost before = vstd::std_specs::iter::IteratorSpec::remaining(&it);
        match it.next() {
            Some(c) => {
                v.push(c);
                proof {
                    assert(before.len() > 0 && c == before[0]);
                    assert(v@ + vstd::std_specs::iter::IteratorSpec::remaining(&it) =~= pre
                        + before);
                }
            },
            None => {
                proof {
                    assert(before.len() == 0);
                    assert(v@ =~= s@);
                }
                break ;
            },
        }
    }
    v
}

/// Relies on `String`'s `FromIterator` over `char`: collecting yields a
/// string holding exactly those characters in order.
#[verifier::external_body]
pub(crate) fn chars_to_string(v: &Vec<char>) -> (r: String)
    ensures
        r@ == v@,
{
    v.iter().collect()
}

/// A value with a canonical one-line text form, the form `write` emits.
pub trait Text {
    /// The canonical text of the value.
    spec fn text(&self) -> Seq<char>;

    /// Produce the canonical text, character by character.
    fn text_chars(&self) -> (r: Vec<char>)
        ensures
            r@ == self.text(),
    ;
}

impl Text for u64 {
    open spec fn text(&self) -> Seq<char> {
        dec_digits(*self as nat)
    }

    fn text_chars(&self) -> (r: Vec<char>) {
        u64_to_chars(*self)
    }
}

impl Text for u32 {
    open spec fn text(&self) -> Seq<char> {
        dec_digits(*self as nat)
    }

    fn text_chars(&self) -> (r: Vec<char>) {
        u64_to_chars(*self as u64)
    }
}

impl Text for usize {
    open spec fn text(&self) -> Seq<char> {
        dec_digits(*self as nat)
    }

    fn text_chars(&self) -> (r: Vec<char>) {
        u64_to_chars(*self as u64)
    }
}

impl Text for i64 {
    open spec fn text(&self) -> Seq<char> {
        int_text(*self as int)
    }

    fn text_chars(&self) -> (r: Vec<char>) {
        i64_to_chars(*self)
    }
}

impl Text for i32 {
    open spec fn text(&self) -> Seq<char> {
        int_text(*self as int)
    }

    fn text_chars(&self) -> (r: Vec<char>) {
        i64_to_chars(*self as i64)
    }
}

impl Text for isize {
    open spec fn text(&self) -> Seq<char> {
        int_text(*self as int)
    }

    fn text_chars(&self) -> (r: Vec<char>) {
        i64_to_chars(*self as i64)
    }
}

impl Text for char {
    open spec fn text(&self) -> Seq<char> {
        seq![*self]
    }

    fn text_chars(&self) -> (r: Vec<char>) {
        let mut v: Vec<char> = Vec::new();
        v.push(*self);
        proof {
            assert(v@ =~= seq![*self]);
        }
        v
    }
}

impl Text for String {
    open spec fn text(&self) -> Seq<char> {
        self@
    }

    fn text_chars(&self) -> (r: Vec<char>) {
        str_to_chars(self.as_str())
    }
}

impl Text for &str {
    open spec fn text(&self) -> Seq<char> {
        (*self)@
    }

    fn text_chars(&self) -> (r: Vec<char>) {
        str_to_chars(*self)
    }
}

/// A value with a structural text form, the form `writed` emits for values
/// that have no canonical one-line representation.
pub trait TextDebug {
    /// The structural text of the value.
    spec fn dtext(&self) -> Seq<char>;

    /// Produce the structural text, character by character.
    fn dtext_chars(&self) -> (r: Vec<char>)
        ensures
            r@ == self.dtext(),
    ;
}

impl TextDebug for u64 {
    open spec fn dtext(&self) -> Seq<char> {
        dec_digits(*self as nat)
    }

    fn dtext_chars(&self) -> (r: Vec<char>) {
        u64_to_chars(*self)
    }
}

impl TextDebug for u32 {
    open spec fn dtext(&self) -> Seq<char> {
        dec_digits(*self as nat)
    }

    fn dtext_chars(&self) -> (r: Vec<char>) {
        u64_to_chars(*self as u64)
    }
}

impl TextDebug for usize {
    open spec fn dtext(&self) -> Seq<char> {
        dec_digits(*self as nat)
    }

    fn dtext_chars(&self) -> (r: Vec<char>) {
        u64_to_chars(*self as u64)
    }
}

impl TextDebug for i64 {
    open spec fn dtext(&self) -> Seq<char> {
        int_text(*self as int)
    }

    fn dtext_chars(&self) -> (r: Vec<char>) {
        i64_to_chars(*self)
    }
}

impl TextDebug for i32 {
    open spec fn dtext(&self) -> Seq<char> {
        int_text(*self as int)
    }

    fn dtext_chars(&self) -> (r: Vec<char>) {
        i64_to_chars(*self as i64)
    }
}

impl TextDebug for isize {
    open spec fn dtext(&self) -> Seq<char> {
        int_text(*self as int)
    }

    fn dtext_chars(&self) -> (r: Vec<char>) {
        i64_to_chars(*self as i64)
    }
}

/// The elements' structural texts joined with a comma and a space.
pub open spec fn join_debug(parts: Seq<Seq<char>>) -> Seq<char>
    decreases parts.len(),
{
    if parts.len() == 0 {
        Seq::empty()
    } else if parts.len() == 1 {
        parts[0]
    } else {
        join_debug(parts.drop_last()) + seq![',', ' '] + parts.last()
    }
}

impl<T: TextDebug> TextDebug for Vec<T> {
    /// A vector prints as its elements' structural texts between square
    /// brackets, separated by comma and space.
    open spec fn dtext(&self) -> Seq<char> {
        seq!['['] + join_debug(self@.map_values(|e: T| e.dtext())) + seq![']']
    }

    fn dtext_chars(&self) -> (r: Vec<char>) {
        let ghost models = self@.map_values(|e: T| e.dtext());
        let mut out: Vec<char> = Vec::new();
        out.push('[');
        let mut i: usize = 0;
        while i < self.len()
            invariant
                i <= self@.len(),
                models == self@.map_values(|e: T| e.dtext()),
                out@ == seq!['['] + join_debug(models.take(i as int)),
            decreases self@.len() - i,
        {
            if i > 0 {
                out.push(',');
                out.push(' ');
            }
            let mut part = self[i].dtext_chars();
            out.append(&mut part);
            proof {
                assert(models.take(i as int + 1).last() == models[i as int]);
                assert(models[i as int] == self@[i as int].dtext());
                if i == 0 {
                    assert(join_debug(models.take(1)) == models.take(1)[0]);
                    assert(out@ =~= seq!['['] + join_debug(models.take(1)));
                } else {
                    assert(models.take(i as int + 1).drop_last() =~= models.take(i as int));
                    assert(join_debug(models.take(i as int + 1)) == join_debug(
                        models.take(i as int),
                    ) + seq![',', ' '] + models[i as int]);
                    assert(out@ =~= seq!['['] + join_debug(models.take(i as int + 1)));
                }
            }
            i = i + 1;
        }
        out.push(']');
        proof {
            assert(models.take(self@.len() as int) =~= models);
            assert(out@ =~= seq!['['] + join_debug(models) + seq![']']);
        }
        out
    }
}

} // verus!

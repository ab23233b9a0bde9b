use vstd::prelude::*;

verus! {

/// Relies on `String::push`: it appends one character to the end of the string.
#[verifier::external_body]
pub(crate) fn push_char(s: &mut String, c: char)
    ensures
        final(s)@ == old(s)@.push(c),
{
    s.push(c);
}

/// The characters `chars[from..to]` as a `String`.
pub(crate) fn string_of(chars: &Vec<char>, from: usize, to: usize) -> (r: String)
    requires
        from <= to <= chars@.len(),
    ensures
        r@ == chars@.subrange(from as int, to as int),
{
    let mut r = String::new();
    let mut i: usize = from;
    while i < to
        invariant
            from <= i <= to <= chars@.len(),
            r@ == chars@.subrange(from as int, i as int),
        decreases to - i,
    {
        push_char(&mut r, chars[i]);
        assert(chars@.subrange(from as int, i + 1) =~= chars@.subrange(from as int, i as int).push(chars@[i as int]));
        i += 1;
    }
    r
}

/// Whether `word` holds exactly the characters `chars[from..to]`.
pub(crate) fn same_chars(word: &Vec<char>, chars: &Vec<char>, from: usize, to: usize) -> (r: bool)
    requires
        from <= to <= chars@.len(),
    ensures
        r == (word@ == chars@.subrange(from as int, to as int)),
{
    if word.len() != to - from {
        return false;
    }
    let mut i: usize = 0;
    while i < word.len()
        invariant
            word@.len() == to - from,
            from <= to <= chars@.len(),
            i <= word@.len(),
            forall|j: int| 0 <= j < i ==> word@[j] == chars@[from + j],
        decreases word@.len() - i,
    {
        if word[i] != chars[from + i] {
            return false;
        }
        i += 1;
    }
    assert(word@ =~= chars@.subrange(from as int, to as int));
    true
}

} // verus!

use vstd::prelude::*;

use crate::config::{PathModel, TypePath};

verus! {

/// Whether a character has the Unicode `Uppercase` property, as std reports it.
pub uninterp spec fn uppercase_property(c: char) -> bool;

/// The first character of the Unicode lowercase mapping of a character, as std reports it.
pub uninterp spec fn lowercase_head(c: char) -> Option<char>;

/// Relies on `char::is_uppercase`, which depends on the character alone.
#[verifier::external_body]
fn char_is_uppercase(c: char) -> (r: bool)
    ensures
        r == uppercase_property(c),
{
    c.is_uppercase()
}

/// Relies on `char::to_lowercase`: the first character of the mapping it yields.
#[verifier::external_body]
fn char_lowercase_head(c: char) -> (r: Option<char>)
    ensures
        r == lowercase_head(c),
{
    c.to_lowercase().next()
}

/// Relies on `String::push`, which appends one character.
#[verifier::external_body]
fn push_char(s: &mut String, c: char)
    ensures
        final(s)@ == old(s)@.push(c),
{
    s.push(c)
}

/// A character lowercased, kept as it is when the mapping yields nothing.
pub open spec fn lowered(c: char) -> char {
    match lowercase_head(c) {
        Some(l) => l,
        None => c,
    }
}

/// What a character after the first becomes, given whether it is uppercase and the head
/// of its lowercase mapping: an uppercase one is lowered and gets an underscore before it;
/// any other passes through.
pub open spec fn piece_of(c: char, upper: bool, lower: Option<char>) -> Seq<char> {
    if upper {
        seq![
            '_',
            match lower {
                Some(l) => l,
                None => c,
            },
        ]
    } else {
        seq![c]
    }
}

pub open spec fn snake_piece(c: char) -> Seq<char> {
    piece_of(c, uppercase_property(c), lowercase_head(c))
}

/// Appends what `c` becomes after the first character of a snake-case name, given std's
/// answers for it.
pub fn push_snake_piece(out: &mut String, c: char, upper: bool, lower: Option<char>)
    ensures
        final(out)@ == old(out)@ + piece_of(c, upper, lower),
{
    if upper {
        push_char(out, '_');
        let l = match lower {
            Some(l) => l,
            None => c,
        };
        push_char(out, l);
    } else {
        push_char(out, c);
    }
    assert(final(out)@ =~= old(out)@ + piece_of(c, upper, lower));
}

pub open spec fn snake_tail(s: Seq<char>) -> Seq<char>
    decreases s.len(),
{
    if s.len() == 0 {
        Seq::empty()
    } else {
        snake_tail(s.drop_last()) + snake_piece(s.last())
    }
}

/// `CubeWithNormals` to `cube_with_normals`: the first character lowered, then each
/// character after it as [`snake_piece`] says.
pub open spec fn snake_case(s: Seq<char>) -> Seq<char> {
    if s.len() == 0 {
        Seq::empty()
    } else {
        seq![lowered(s[0])] + snake_tail(s.drop_first())
    }
}

/// Converts a name written in capitalized words to lowercase words joined by underscores.
pub fn pascal_to_snake_case(s: &str) -> (r: String)
    ensures
        r@ == snake_case(s@),
{
    let mut result = String::new();
    let n = s.unicode_len();
    if n == 0 {
        return result;
    }
    let first = s.get_char(0);
    let low = match char_lowercase_head(first) {
        Some(l) => l,
        None => first,
    };
    push_char(&mut result, low);
    let mut i: usize = 1;
    while i < n
        invariant
            1 <= i <= n,
            n == s@.len(),
            result@ == seq![lowered(s@[0])] + snake_tail(s@.subrange(1, i as int)),
        decreases n - i,
    {
        let c = s.get_char(i);
        let ghost before = result@;
        let upper = char_is_uppercase(c);
        let lower = char_lowercase_head(c);
        push_snake_piece(&mut result, c, upper, lower);
        proof {
            assert(s@.subrange(1, i + 1).drop_last() =~= s@.subrange(1, i as int));
        }
        i = i + 1;
    }
    proof {
        assert(s@.subrange(1, n as int) =~= s@.drop_first());
    }
    result
}

/// The snake-case form of a type path's last segment, if the path has segments.
pub open spec fn last_segment_name(p: PathModel) -> Option<Seq<char>> {
    if p.segments.len() == 0 {
        None
    } else {
        Some(snake_case(p.segments.last()))
    }
}

/// The snake-case form of the last segment of a type path.
pub fn get_last_segment_name(ty: &TypePath) -> (r: Option<String>)
    ensures
        match r {
            Some(n) => last_segment_name(ty@) == Some(n@),
            None => last_segment_name(ty@) is None,
        },
{
    let n = ty.segments.len();
    if n == 0 {
        None
    } else {
        Some(pascal_to_snake_case(ty.segments[n - 1].as_str()))
    }
}

pub open spec fn with_prefix() -> Seq<char> {
    seq!['w', 'i', 't', 'h', '_']
}

pub open spec fn fallback_suffix() -> Seq<char> {
    seq!['i', 'n', 'i', 't', 'i', 'a', 'l', 'i', 'z', 'e', 'r']
}

/// The name of the fluent method that attaches a renderable of the given type:
/// `with_` and the snake-case last segment, or `with_initializer` for a path without one.
pub open spec fn attach_method_name(p: PathModel) -> Seq<char> {
    with_prefix() + match last_segment_name(p) {
        Some(n) => n,
        None => fallback_suffix(),
    }
}

/// Derives the name of the fluent method that attaches a renderable of type `ty`.
pub fn method_name_for(ty: &TypePath) -> (r: String)
    ensures
        r@ == attach_method_name(ty@),
{
    proof {
        reveal_strlit("with_");
        reveal_strlit("initializer");
        assert("with_"@ =~= with_prefix());
        assert("initializer"@ =~= fallback_suffix());
    }
    let suffix = match get_last_segment_name(ty) {
        Some(n) => n,
        None => String::from_str("initializer"),
    };
    String::from_str("with_").concat(suffix.as_str())
}

} // verus!

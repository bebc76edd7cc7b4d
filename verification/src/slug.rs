use vstd::prelude::*;
use vstd::string::StrSliceExecFns;
use vstd::string::StringExecFns;
use vstd::string::StringExecFnsIsAscii;
use pinyin::ToPinyin;
use unicode_segmentation::UnicodeSegmentation;

verus! {

use vstd::utf8::is_ascii_chars;

/// What `str::to_lowercase` returns on a string: its Unicode lowercase
/// form, a function of the characters alone.
pub uninterp spec fn lower_of(s: Seq<char>) -> Seq<char>;

/// What `unicode_segmentation`'s `unicode_words` yields on a string: its
/// word-boundary tokens under the Unicode word-segmentation rules, a
/// function of the characters alone.
pub uninterp spec fn words_of(s: Seq<char>) -> Seq<Seq<char>>;

/// What the `pinyin` crate holds for a character: the plain (toneless)
/// pinyin syllable of its most common reading, or `None` for a character
/// outside the crate's data, a function of the character alone.
pub uninterp spec fn pinyin_of(c: char) -> Option<Seq<char>>;

/// Relies on `str::to_lowercase`: the lowercase equivalent of the string,
/// depending on the input characters alone.
pub assume_specification[ str::to_lowercase ](s: &str) -> (r: String)
    ensures
        r@ == lower_of(s@),
;

/// Relies on `unicode_segmentation::UnicodeSegmentation::unicode_words`:
/// the word tokens of the string, depending on the input characters alone.
#[verifier::external_body]
fn unicode_word_tokens(s: &str) -> (r: Vec<String>)
    ensures
        r.deep_view() == words_of(s@),
{
    s.unicode_words().map(|w| w.to_owned()).collect()
}

/// Relies on `pinyin::ToPinyin::to_pinyin` for `char`, and on
/// `pinyin::Pinyin::plain` to read the stored plain syllable: both depend
/// on the character alone.
#[verifier::external_body]
fn char_pinyin(c: char) -> (r: Option<String>)
    ensures
        r is Some <==> pinyin_of(c) is Some,
        r matches Some(s) ==> pinyin_of(c) == Some(s@),
{
    c.to_pinyin().map(|p| p.plain().to_owned())
}

/// A token contributes to the slug as it stands when it is pure ASCII;
/// otherwise only when its leading character has a transliteration.
pub open spec fn token_ok(t: Seq<char>) -> bool {
    is_ascii_chars(t) || pinyin_of(t[0]) is Some
}

/// The part a token contributes to the slug: the token itself when it is
/// pure ASCII, else the plain pinyin syllable of its leading character.
pub open spec fn token_slug(t: Seq<char>) -> Seq<char> {
    if is_ascii_chars(t) {
        t
    } else {
        match pinyin_of(t[0]) {
            Some(p) => p,
            None => Seq::empty(),
        }
    }
}

/// The given parts joined with single hyphens.
pub open spec fn join_hyphen(parts: Seq<Seq<char>>) -> Seq<char>
    decreases parts.len(),
{
    if parts.len() == 0 {
        Seq::empty()
    } else if parts.len() == 1 {
        parts[0]
    } else {
        join_hyphen(parts.drop_last()) + seq!['-'] + parts.last()
    }
}

/// The word tokens of the lower-cased name.
pub open spec fn name_tokens(name: Seq<char>) -> Seq<Seq<char>> {
    words_of(lower_of(name))
}

/// Whether a slug can be derived from the name: every token of the
/// lower-cased name either is pure ASCII or has a transliteration for
/// its leading character.
pub open spec fn slug_defined(name: Seq<char>) -> bool {
    forall|i: int|
        0 <= i < name_tokens(name).len() ==> token_ok(#[trigger] name_tokens(name)[i])
}

/// The slug of a display name: lower-case it, split it into word tokens,
/// replace each non-ASCII token by the plain syllable of its leading
/// character, and join the parts with hyphens.
pub open spec fn slug_of(name: Seq<char>) -> Seq<char> {
    join_hyphen(name_tokens(name).map_values(|t: Seq<char>| token_slug(t)))
}

fn token_part(tok: &String) -> (r: Option<String>)
    ensures
        r is Some <==> token_ok(tok@),
        r matches Some(s) ==> s@ == token_slug(tok@),
{
    if tok.is_ascii() {
        Some(tok.clone())
    } else {
        proof {
            if tok@.len() == 0 {
                assert(is_ascii_chars(tok@));
            }
        }
        let c = tok.as_str().get_char(0);
        char_pinyin(c)
    }
}

proof fn lemma_join_hyphen_step(parts: Seq<Seq<char>>, i: int)
    requires
        0 <= i < parts.len(),
    ensures
        join_hyphen(parts.take(i + 1)) == if i == 0 {
            parts[0]
        } else {
            (join_hyphen(parts.take(i)) + seq!['-'] + parts[i])
        },
{
    let p1 = parts.take(i + 1);
    if i == 0 {
        assert(p1.len() == 1);
        assert(p1[0] == parts[0]);
    } else {
        assert(p1.drop_last() =~= parts.take(i));
        assert(p1.last() == parts[i]);
    }
}

fn join_with_hyphen(parts: &Vec<String>) -> (r: String)
    ensures
        r@ == join_hyphen(parts.deep_view()),
{
    let mut out = String::new();
    let mut i: usize = 0;
    while i < parts.len()
        invariant
            i <= parts.len(),
            out@ == join_hyphen(parts.deep_view().take(i as int)),
        decreases parts.len() - i,
    {
        if i > 0 {
            out.append("-");
        }
        out.append(parts[i].as_str());
        proof {
            reveal_strlit("-");
            lemma_join_hyphen_step(parts.deep_view(), i as int);
            if i == 0 {
                assert(out@ =~= parts.deep_view()[0]);
            }
            assert(out@ == join_hyphen(parts.deep_view().take(i + 1)));
        }
        i = i + 1;
    }
    proof {
        assert(parts.deep_view().take(parts.len() as int) =~= parts.deep_view());
    }
    out
}

/// Derives the slug of a display name where one is defined, and reports
/// with `None` a name with a token that neither is ASCII nor has a
/// transliteration for its leading character.
pub fn try_derive_slug(name: &str) -> (r: Option<String>)
    ensures
        r is Some <==> slug_defined(name@),
        r matches Some(s) ==> s@ == slug_of(name@),
{
    let lowered = name.to_lowercase();
    let tokens = unicode_word_tokens(lowered.as_str());
    let mut parts: Vec<String> = Vec::new();
    let mut i: usize = 0;
    while i < tokens.len()
        invariant
            i <= tokens.len(),
            tokens.deep_view() == name_tokens(name@),
            parts@.len() == i,
            forall|j: int| 0 <= j < i ==> token_ok(#[trigger] name_tokens(name@)[j]),
            forall|j: int|
                0 <= j < i ==> (#[trigger] parts@[j])@ == token_slug(name_tokens(name@)[j]),
        decreases tokens.len() - i,
    {
        match token_part(&tokens[i]) {
            Some(p) => {
                parts.push(p);
            },
            None => {
                proof {
                    assert(!token_ok(name_tokens(name@)[i as int]));
                }
                return None;
            },
        }
        i = i + 1;
    }
    proof {
        assert(parts.deep_view() =~= name_tokens(name@).map_values(
            |t: Seq<char>| token_slug(t),
        ));
    }
    let slug = join_with_hyphen(&parts);
    Some(slug)
}

/// Derives the slug of a display name. The same name always yields the
/// same slug: the result is a function of the input alone.
pub fn derive_slug(name: &str) -> (r: String)
    requires
        slug_defined(name@),
    ensures
        r@ == slug_of(name@),
{
    match try_derive_slug(name) {
        Some(s) => s,
        None => vstd::pervasive::unreached(),
    }
}

/// A token whose leading character lies outside ASCII is replaced by the
/// transliterated syllable of that character, never rendered as-is.
pub proof fn lemma_mixed_script_token(t: Seq<char>)
    requires
        t.len() > 0,
        '\u{7f}' < t[0],
    ensures
        token_slug(t) == match pinyin_of(t[0]) {
            Some(p) => p,
            None => Seq::<char>::empty(),
        },
{
    assert(!is_ascii_chars(t));
}

} // verus!

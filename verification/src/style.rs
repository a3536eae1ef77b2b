use vstd::prelude::*;
use vstd::string::StrSliceExecFns;
use vstd::string::StringExecFns;

verus! {

/// The shape of a join style, with the separator as a plain character
/// sequence.
pub enum StyleView {
    Pascal,
    Camel,
    Concat(Seq<char>),
}

/// The Unicode uppercase mapping of one character, named but not written
/// out: the trusted wrapper below is the only place that says what it is.
pub uninterp spec fn upper_of(c: char) -> Seq<char>;

/// Relies on char::to_uppercase: the Unicode uppercase mapping of the
/// character, one or more characters that depend on the character alone.
#[verifier::external_body]
fn char_to_upper(c: char) -> (r: String)
    ensures
        r@ == upper_of(c),
{
    c.to_uppercase().collect()
}

/// `word` with its first character put through the uppercase mapping and the
/// rest unchanged; empty stays empty.
pub open spec fn capitalized(word: Seq<char>) -> Seq<char> {
    if word.len() == 0 {
        word
    } else {
        upper_of(word[0]) + word.drop_first()
    }
}

/// What one push appends to the accumulator: the capitalization asked for by
/// the style, and the separator in front of every word but the first.
pub open spec fn style_push(style: StyleView, word: Seq<char>, first: bool) -> Seq<char> {
    match style {
        StyleView::Pascal => capitalized(word),
        StyleView::Camel => if first {
            word
        } else {
            capitalized(word)
        },
        StyleView::Concat(sep) => if first {
            word
        } else {
            sep + word
        },
    }
}

/// How the words of a password are joined.
#[derive(Debug, Clone, PartialEq, Eq)]
pub enum Style {
    /// `MyGreatPassword`
    Pascal,
    /// `myGreatPassword`
    Camel,
    /// For example, if the separator is `_`: `my_great_password`
    Concat(String),
}

impl View for Style {
    type V = StyleView;

    open spec fn view(&self) -> StyleView {
        match self {
            Style::Pascal => StyleView::Pascal,
            Style::Camel => StyleView::Camel,
            Style::Concat(sep) => StyleView::Concat(sep@),
        }
    }
}

impl Default for Style {
    /// The default style capitalizes every word.
    fn default() -> (r: Self)
        ensures
            r@ == StyleView::Pascal,
    {
        Style::Pascal
    }
}

impl Style {
    /// Appends one word to the accumulator in this style. `first` marks the
    /// first word of the password; `_last` is accepted for symmetry and has
    /// no effect on any style.
    pub fn push(&self, word: &str, into: &mut String, first: bool, _last: bool)
        ensures
            final(into)@ == old(into)@ + style_push(self@, word@, first),
    {
        match self {
            Style::Pascal => {
                push_capitalized(word, into);
            },
            Style::Camel => {
                if first {
                    into.append(word);
                } else {
                    push_capitalized(word, into);
                }
            },
            Style::Concat(sep) => {
                if !first {
                    into.append(sep.as_str());
                }
                into.append(word);
                proof {
                    if !first {
                        assert(old(into)@ + sep@ + word@ =~= old(into)@ + (sep@ + word@));
                    }
                }
            },
        }
    }
}

fn push_capitalized(word: &str, into: &mut String)
    ensures
        final(into)@ == old(into)@ + capitalized(word@),
{
    let n = word.unicode_len();
    if n > 0 {
        let c = word.get_char(0);
        let up = char_to_upper(c);
        into.append(up.as_str());
        into.append(word.substring_char(1, n));
        proof {
            assert(word@.subrange(1, n as int) =~= word@.drop_first());
            assert(old(into)@ + upper_of(word@[0]) + word@.drop_first() =~= old(into)@
                + capitalized(word@));
        }
    } else {
        proof {
            assert(old(into)@ + capitalized(word@) =~= old(into)@);
        }
    }
}

} // verus!

//! Choice of input mode from the command-line switches, and the errors that
//! stop a run before any input is read.
use vstd::prelude::*;

verus! {

/// Configuration errors; each ends the run before classification begins.
#[derive(Debug, PartialEq, Eq)]
pub enum ConfigError {
    /// A language restriction names a code the detector does not know.
    UnsupportedLanguageCode(String),
    /// Multi-language detection was combined with per-line input.
    IncompatibleModes,
    /// Standard input, read as one document, is not valid UTF-8.
    InvalidEncoding,
}

/// Where the texts to classify come from.
#[derive(Debug, PartialEq, Eq)]
pub enum InputMode {
    /// The positional arguments, joined by single spaces, as one text.
    DirectText(String),
    /// All of standard input as one text.
    WholeDocument,
    /// Each line of standard input, classified one after another.
    PerLine,
    /// Each line of standard input, classified together as one batch.
    PerLineParallel,
}

/// The words joined by single spaces.
pub open spec fn spaced(words: Seq<Seq<char>>) -> Seq<char>
    decreases words.len(),
{
    if words.len() == 0 {
        Seq::empty()
    } else if words.len() == 1 {
        words[0]
    } else {
        spaced(words.drop_last()) + seq![' '] + words.last()
    }
}

/// The character sequences of a vector of strings.
pub open spec fn views(words: Seq<String>) -> Seq<Seq<char>> {
    words.map_values(|w: String| w@)
}

/// Joins the words with single spaces.
pub fn join_words(words: &Vec<String>) -> (r: String)
    ensures
        r@ == spaced(views(words@)),
{
    let mut out = String::new();
    let mut i: usize = 0;
    let space = " ";
    proof {
        reveal_strlit(" ");
    }
    while i < words.len()
        invariant
            i <= words@.len(),
            space@ == seq![' '],
            out@ == spaced(views(words@.take(i as int))),
        decreases words@.len() - i,
    {
        proof {
            assert(views(words@.take(i + 1)).drop_last() =~= views(words@.take(i as int)));
            assert(views(words@.take(i + 1)).last() == words@[i as int]@);
        }
        if i > 0 {
            out.append(space);
        } else {
            assert(out@ =~= Seq::<char>::empty());
        }
        out.append(words[i].as_str());
        i = i + 1;
    }
    assert(words@.take(i as int) =~= words@);
    out
}

/// The mode of a run without positional text: per-line input when asked
/// for, as a batch if parallel is also set; otherwise all of standard input
/// as one text. Multi-language detection cannot be combined with per-line
/// input; parallel without per-line is ignored.
pub open spec fn stdin_mode(per_line: bool, parallel: bool, multi: bool) -> Result<
    InputMode,
    ConfigError,
> {
    if per_line && multi {
        Err(ConfigError::IncompatibleModes)
    } else if per_line && parallel {
        Ok(InputMode::PerLineParallel)
    } else if per_line {
        Ok(InputMode::PerLine)
    } else {
        Ok(InputMode::WholeDocument)
    }
}

/// Chooses the input mode. Positional text, when there is any, is the one
/// text to classify, whatever the per-line switches say.
pub fn select_mode(text: &Vec<String>, per_line: bool, parallel: bool, multi: bool) -> (r: Result<
    InputMode,
    ConfigError,
>)
    ensures
        text@.len() > 0 ==> (r matches Ok(InputMode::DirectText(t)) && t@ == spaced(
            views(text@),
        )),
        text@.len() == 0 ==> r == stdin_mode(per_line, parallel, multi),
{
    if text.len() > 0 {
        Ok(InputMode::DirectText(join_words(text)))
    } else if per_line && multi {
        Err(ConfigError::IncompatibleModes)
    } else if per_line && parallel {
        Ok(InputMode::PerLineParallel)
    } else if per_line {
        Ok(InputMode::PerLine)
    } else {
        Ok(InputMode::WholeDocument)
    }
}

} // verus!

//! The languages code blocks are coloured as.

use crate::text::{chars_of, first_word, lower_chars, lowered, same, text_of, texts};
use vstd::prelude::*;
use vstd::string::*;

verus! {

/// The language a common shorthand stands for.
pub open spec fn alias_of(token: Seq<char>) -> Option<Seq<char>> {
    if token == "js"@ || token == "node"@ || token == "nodejs"@ || token == "javascript"@ {
        Some("js"@)
    } else if token == "ts"@ {
        Some("typescript"@)
    } else if token == "c++"@ || token == "cxx"@ || token == "cc"@ {
        Some("cpp"@)
    } else if token == "c#"@ || token == "csharp"@ || token == "cs"@ {
        Some("c-sharp"@)
    } else if token == "sh"@ || token == "shell"@ || token == "zsh"@ || token == "fish"@ || token
        == "bash"@ {
        Some("sh"@)
    } else if token == "py"@ || token == "python3"@ || token == "python"@ {
        Some("python3"@)
    } else if token == "rb"@ {
        Some("ruby"@)
    } else if token == "yml"@ {
        Some("yaml"@)
    } else if token == "rs"@ {
        Some("rust"@)
    } else if token == "md"@ {
        Some("markdown"@)
    } else if token == "htm"@ {
        Some("html"@)
    } else if token == "ps1"@ || token == "powershell"@ {
        Some("powershell"@)
    } else {
        None
    }
}

/// The language a common shorthand stands for.
fn alias(token: &str) -> (language: Option<&'static str>)
    ensures
        match language {
            Some(language) => alias_of(token@) == Some(language@),
            None => alias_of(token@) is None,
        },
{
    if same(token, "js") || same(token, "node") || same(token, "nodejs") || same(
        token,
        "javascript",
    ) {
        Some("js")
    } else if same(token, "ts") {
        Some("typescript")
    } else if same(token, "c++") || same(token, "cxx") || same(token, "cc") {
        Some("cpp")
    } else if same(token, "c#") || same(token, "csharp") || same(token, "cs") {
        Some("c-sharp")
    } else if same(token, "sh") || same(token, "shell") || same(token, "zsh") || same(token, "fish")
        || same(token, "bash") {
        Some("sh")
    } else if same(token, "py") || same(token, "python3") || same(token, "python") {
        Some("python3")
    } else if same(token, "rb") {
        Some("ruby")
    } else if same(token, "yml") {
        Some("yaml")
    } else if same(token, "rs") {
        Some("rust")
    } else if same(token, "md") {
        Some("markdown")
    } else if same(token, "htm") {
        Some("html")
    } else if same(token, "ps1") || same(token, "powershell") {
        Some("powershell")
    } else {
        None
    }
}

/// The languages a fenced-code info string may name, the likeliest first.
pub open spec fn candidates(info: Seq<char>) -> Seq<Seq<char>> {
    let token = lowered(crate::text::first_word_of(info));
    if token.len() == 0 {
        Seq::empty()
    } else {
        match alias_of(token) {
            Some(language) if language != token => seq![token, language],
            _ => seq![token],
        }
    }
}

/// Ordered candidate GtkSourceView language ids for a fenced-code info string. The raw token is
/// tried first (so canonical ids like `rust`, `c`, `json` work directly); a small alias map
/// follows for common shorthands. An info string without a word yields no candidates, and an
/// unknown word only itself, so the block falls back to plain text.
pub fn lang_candidates(info: &str) -> (list: Vec<String>)
    ensures
        texts(list@) == candidates(info@),
{
    let token = lower_chars(&first_word(&chars_of(info)));
    let mut list: Vec<String> = Vec::new();
    if token.len() == 0 {
        proof {
            assert(texts(list@) =~= Seq::empty());
        }
        return list;
    }
    let text = text_of(&token, 0, token.len());
    proof {
        assert(token@.subrange(0, token@.len() as int) =~= token@);
    }
    let found = alias(text.as_str());
    list.push(text.clone());
    if let Some(language) = found {
        if !same(language, text.as_str()) {
            list.push(String::from_str(language));
        }
    }
    proof {
        assert(texts(list@) =~= candidates(info@));
    }
    list
}

/// The first language that is tried is the first word of the fence, in lower case, and nothing is
/// tried without one; an abbreviation is followed by the language it stands for, and a word that is
/// none by nothing.
pub proof fn words_are_tried_first(info: Seq<char>)
    ensures
        ({
            let word = crate::text::first_word_of(info);
            let tried = candidates(info);
            &&& word.len() == 0 <==> tried.len() == 0
            &&& word.len() > 0 ==> tried[0] == lowered(word) && tried.len() <= 2
            &&& tried.len() == 2 ==> tried[1] != tried[0] && alias_of(tried[0]) == Some(tried[1])
            &&& word.len() > 0 && alias_of(lowered(word)) is None ==> tried.len() == 1
        }),
{
}

}

//! Display names of the language codes the library knows.
use vstd::prelude::*;
use crate::model::same_text;

verus! {

/// The display name of a language code, where the code is known.
pub open spec fn language_name(code: Seq<char>) -> Option<Seq<char>> {
    if code == "bul"@ {
        Some("Български"@)
    } else if code == "eng"@ {
        Some("English"@)
    } else if code == "fas"@ {
        Some("فارسی"@)
    } else if code == "fra"@ {
        Some("Français"@)
    } else if code == "jpn"@ {
        Some("日本語"@)
    } else if code == "ojp"@ {
        Some("上代日本語"@)
    } else if code == "lzh"@ {
        Some("文言"@)
    } else if code == "rus"@ {
        Some("Русский"@)
    } else if code == "zho-Hans"@ {
        Some("简体中文"@)
    } else if code == "zho-Hant"@ {
        Some("繁體中文"@)
    } else if code == "yue-Hant"@ {
        Some("粵語"@)
    } else if code == "mn"@ {
        Some("Монгол"@)
    } else if code == "mn-Latn"@ {
        Some("Mongolian (Latin)"@)
    } else {
        None
    }
}

/// The display name of a language code, where the code is known.
pub fn get_language_name(code: &str) -> (r: Option<&'static str>)
    ensures
        r matches Some(n) ==> language_name(code@) == Some(n@),
        r is None ==> language_name(code@) is None,
{
    if same_text(code, "bul") {
        Some("Български")
    } else if same_text(code, "eng") {
        Some("English")
    } else if same_text(code, "fas") {
        Some("فارسی")
    } else if same_text(code, "fra") {
        Some("Français")
    } else if same_text(code, "jpn") {
        Some("日本語")
    } else if same_text(code, "ojp") {
        Some("上代日本語")
    } else if same_text(code, "lzh") {
        Some("文言")
    } else if same_text(code, "rus") {
        Some("Русский")
    } else if same_text(code, "zho-Hans") {
        Some("简体中文")
    } else if same_text(code, "zho-Hant") {
        Some("繁體中文")
    } else if same_text(code, "yue-Hant") {
        Some("粵語")
    } else if same_text(code, "mn") {
        Some("Монгол")
    } else if same_text(code, "mn-Latn") {
        Some("Mongolian (Latin)")
    } else {
        None
    }
}

} // verus!

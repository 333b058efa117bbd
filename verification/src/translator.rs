//! The texts of the user interface, by language.
//!
//! A translator holds, for each language, the texts by their keys. A key
//! is a path of names joined by dots, as the nesting of the language file
//! gives it. A text that is not there is shown as its key.

use vstd::prelude::*;
use vstd::string::*;

verus! {

/// Why a language was not chosen.
#[derive(Clone, Copy, PartialEq, Eq, Structural, Debug)]
pub enum TranslateError {
    /// No texts are loaded for the language.
    NotAvailable,
}

/// One text of a language.
pub struct Entry {
    pub key: String,
    pub text: String,
}

/// The texts of one language.
pub struct Language {
    pub code: String,
    pub entries: Vec<Entry>,
}

/// The language that is chosen, and the texts of all that are loaded.
pub struct Translator {
    pub current_language: String,
    pub translations: Vec<Language>,
}

/// A language as the user is offered it.
pub struct LanguageInfo {
    pub code: String,
    pub name: String,
}

/// The first position from `i` on at which a language of code `code`
/// stands, or the number of languages.
pub open spec fn language_at(langs: Seq<Language>, code: Seq<char>, i: int) -> int
    decreases langs.len() - i,
{
    if i < 0 || i >= langs.len() {
        langs.len() as int
    } else if langs[i].code@ == code {
        i
    } else {
        language_at(langs, code, i + 1)
    }
}

/// The first text of key `key` from `i` on.
pub open spec fn text_at(entries: Seq<Entry>, key: Seq<char>, i: int) -> Option<Seq<char>>
    decreases entries.len() - i,
{
    if i < 0 || i >= entries.len() {
        None
    } else if entries[i].key@ == key {
        Some(entries[i].text@)
    } else {
        text_at(entries, key, i + 1)
    }
}

/// Whether texts are loaded for the language `code`.
pub open spec fn is_available(langs: Seq<Language>, code: Seq<char>) -> bool {
    language_at(langs, code, 0) < langs.len()
}

/// The text of `key` in the chosen language, or `key` itself where the
/// language or the text is not there.
pub open spec fn translation(t: Translator, key: Seq<char>) -> Seq<char> {
    let p = language_at(t.translations@, t.current_language@, 0);
    if p >= t.translations@.len() {
        key
    } else {
        match text_at(t.translations@[p].entries@, key, 0) {
            Some(text) => text,
            None => key,
        }
    }
}

/// The codes of `langs`, in their order.
pub open spec fn codes(langs: Seq<Language>) -> Seq<Seq<char>> {
    Seq::new(langs.len(), |i: int| langs[i].code@)
}

/// A list of codes, as a mathematical value.
pub open spec fn codes_view(v: Seq<String>) -> Seq<Seq<char>> {
    Seq::new(v.len(), |i: int| v[i]@)
}

fn find_language(langs: &Vec<Language>, code: &String) -> (r: Option<usize>)
    ensures
        match r {
            Some(i) => i < langs@.len() && language_at(langs@, code@, 0) == i,
            None => language_at(langs@, code@, 0) == langs@.len(),
        },
{
    let mut i: usize = 0;
    while i < langs.len()
        invariant
            i <= langs@.len(),
            language_at(langs@, code@, 0) == language_at(langs@, code@, i as int),
        decreases langs@.len() - i,
    {
        if langs[i].code == *code {
            return Some(i);
        }
        i = i + 1;
    }
    None
}

impl Translator {
    /// A translator over the loaded languages. The language is the one
    /// that was saved, if it is among them, and English otherwise.
    pub fn new(translations: Vec<Language>, saved: Option<String>) -> (r: Translator)
        ensures
            r.translations == translations,
            r.current_language@ == match saved {
                Some(s) => if is_available(translations@, s@) {
                    s@
                } else {
                    "en"@
                },
                None => "en"@,
            },
    {
        let current = match saved {
            Some(s) => {
                if find_language(&translations, &s).is_some() {
                    s
                } else {
                    String::from_str("en")
                }
            },
            None => String::from_str("en"),
        };
        Translator { current_language: current, translations }
    }

    /// Chooses the language `lang`, if texts are loaded for it.
    pub fn set_language(&mut self, lang: &str) -> (r: Result<(), TranslateError>)
        ensures
            final(self).translations == old(self).translations,
            is_available(old(self).translations@, lang@) ==> r is Ok && final(self).current_language@
                == lang@,
            !is_available(old(self).translations@, lang@) ==> r == Err::<(), TranslateError>(
                TranslateError::NotAvailable,
            ) && final(self).current_language == old(self).current_language,
    {
        let code = String::from_str(lang);
        match find_language(&self.translations, &code) {
            Some(_) => {
                self.current_language = code;
                Ok(())
            },
            None => Err(TranslateError::NotAvailable),
        }
    }

    /// The code of the chosen language.
    pub fn get_current_language(&self) -> (r: String)
        ensures
            r@ == self.current_language@,
    {
        self.current_language.clone()
    }

    /// The codes of the loaded languages, in the order in which they were
    /// loaded.
    pub fn get_available_languages(&self) -> (r: Vec<String>)
        ensures
            codes_view(r@) == codes(self.translations@),
    {
        let mut out: Vec<String> = Vec::new();
        let mut i: usize = 0;
        while i < self.translations.len()
            invariant
                i <= self.translations@.len(),
                out@.len() == i,
                forall|j: int| 0 <= j < i ==> (#[trigger] out@[j])@ == self.translations@[j].code@,
            decreases self.translations@.len() - i,
        {
            out.push(self.translations[i].code.clone());
            i = i + 1;
        }
        out
    }

    /// The text of `key` in the chosen language; `key` itself where there
    /// is none.
    pub fn translate(&self, key: &str) -> (r: String)
        ensures
            r@ == translation(*self, key@),
    {
        let wanted = String::from_str(key);
        match find_language(&self.translations, &self.current_language) {
            None => wanted,
            Some(p) => {
                let entries = &self.translations[p].entries;
                let mut i: usize = 0;
                while i < entries.len()
                    invariant
                        i <= entries@.len(),
                        wanted@ == key@,
                        p < self.translations@.len(),
                        language_at(self.translations@, self.current_language@, 0) == p,
                        entries@ == self.translations@[p as int].entries@,
                        text_at(entries@, key@, 0) == text_at(entries@, key@, i as int),
                    decreases entries@.len() - i,
                {
                    if entries[i].key == wanted {
                        return entries[i].text.clone();
                    }
                    i = i + 1;
                }
                wanted
            },
        }
    }
}

/// The text of `key` in the chosen language.
pub fn t(translator: &Translator, key: &str) -> (r: String)
    ensures
        r@ == translation(*translator, key@),
{
    translator.translate(key)
}

/// Chooses the language `lang`.
pub fn set_language(translator: &mut Translator, lang: &str) -> (r: Result<(), TranslateError>)
    ensures
        final(translator).translations == old(translator).translations,
        is_available(old(translator).translations@, lang@) ==> r is Ok
            && final(translator).current_language@ == lang@,
        !is_available(old(translator).translations@, lang@) ==> r == Err::<(), TranslateError>(
            TranslateError::NotAvailable,
        ) && final(translator).current_language == old(translator).current_language,
{
    translator.set_language(lang)
}

/// The code of the chosen language.
pub fn get_current_language(translator: &Translator) -> (r: String)
    ensures
        r@ == translator.current_language@,
{
    translator.get_current_language()
}

/// The codes of the loaded languages.
pub fn get_available_languages(translator: &Translator) -> (r: Vec<String>)
    ensures
        codes_view(r@) == codes(translator.translations@),
{
    translator.get_available_languages()
}

/// The name of a language in that language; its code where the name is
/// not known.
pub open spec fn language_name(code: Seq<char>) -> Seq<char> {
    if code == "en"@ {
        "English"@
    } else if code == "de"@ {
        "Deutsch"@
    } else if code == "es"@ {
        "Español"@
    } else if code == "fr"@ {
        "Français"@
    } else if code == "it"@ {
        "Italiano"@
    } else {
        code
    }
}

fn same(a: &String, b: &str) -> (r: bool)
    ensures
        r == (a@ == b@),
{
    let y = String::from_str(b);
    *a == y
}

/// Names a language for the user.
pub fn language_info(code: String) -> (r: LanguageInfo)
    ensures
        r.code == code,
        r.name@ == language_name(code@),
{
    let name = if same(&code, "en") {
        String::from_str("English")
    } else if same(&code, "de") {
        String::from_str("Deutsch")
    } else if same(&code, "es") {
        String::from_str("Español")
    } else if same(&code, "fr") {
        String::from_str("Français")
    } else if same(&code, "it") {
        String::from_str("Italiano")
    } else {
        code.clone()
    };
    LanguageInfo { code, name }
}

} // verus!

//! Dietary labels and their recognition in class attributes.

use vstd::prelude::*;
use crate::text::{same_text, texts_view};

verus! {

/// The closed set of dietary labels a menu item can carry.
#[derive(Clone, Copy, Debug, PartialEq, Eq, Structural)]
pub enum Label {
    Missing,
    Vegetarian,
    Vegan,
    OneClimate,
}

/// The label a class token names; every other token names no label.
pub open spec fn label_of(token: Seq<char>) -> Label {
    if token == "vegan"@ {
        Label::Vegan
    } else if token == "vegetarian"@ {
        Label::Vegetarian
    } else if token == "one-climate"@ {
        Label::OneClimate
    } else {
        Label::Missing
    }
}

/// Classification is total: every token gets one of the four labels, the
/// three known tokens their own, and every other token `Missing`.
pub proof fn lemma_classification_is_total(token: Seq<char>)
    ensures
        label_of("vegan"@) == Label::Vegan,
        label_of("vegetarian"@) == Label::Vegetarian,
        label_of("one-climate"@) == Label::OneClimate,
        token != "vegan"@ && token != "vegetarian"@ && token != "one-climate"@ ==> label_of(token)
            == Label::Missing,
{
    reveal_strlit("vegan");
    reveal_strlit("vegetarian");
    reveal_strlit("one-climate");
    assert("vegetarian"@.len() == 10);
    assert("vegan"@.len() == 5);
    assert("one-climate"@.len() == 11);
    assert("vegetarian"@ != "vegan"@);
    assert("one-climate"@ != "vegan"@);
    assert("one-climate"@ != "vegetarian"@);
}

/// Classification depends on the token alone: classifying the same token
/// twice gives the same label.
pub proof fn lemma_classification_is_repeatable(first: Seq<char>, second: Seq<char>)
    requires
        first == second,
    ensures
        label_of(first) == label_of(second),
{
}

/// The stable integer code of a label on the wire.
pub open spec fn label_code(l: Label) -> u8 {
    match l {
        Label::Missing => 0,
        Label::Vegetarian => 1,
        Label::Vegan => 2,
        Label::OneClimate => 3,
    }
}

/// Characters that may follow the `label-` prefix in a class token.
pub open spec fn is_word_char(c: char) -> bool {
    ('a' <= c && c <= 'z') || ('A' <= c && c <= 'Z') || ('0' <= c && c <= '9') || c == '_'
}

/// `s` holds `label-` at `i`, followed by at least one word character.
pub open spec fn label_starts_at(s: Seq<char>, i: int) -> bool {
    &&& 0 <= i
    &&& i + 6 < s.len()
    &&& s[i] == 'l' && s[i + 1] == 'a' && s[i + 2] == 'b'
    &&& s[i + 3] == 'e' && s[i + 4] == 'l' && s[i + 5] == '-'
    &&& is_word_char(s[i + 6])
}

/// The last position below `k` where a label token starts.
pub open spec fn last_label_start(s: Seq<char>, k: int) -> Option<int>
    decreases k,
{
    if k <= 0 {
        None
    } else if label_starts_at(s, k - 1) {
        Some(k - 1)
    } else {
        last_label_start(s, k - 1)
    }
}

/// The end of the run of word characters that starts at `j`.
pub open spec fn word_run_end(s: Seq<char>, j: int) -> int
    decreases s.len() - j,
{
    if 0 <= j < s.len() && is_word_char(s[j]) {
        word_run_end(s, j + 1)
    } else {
        j
    }
}

/// The word after the last `label-` prefix in an attribute value that is
/// followed by a word character, if there is one.
pub open spec fn label_token(s: Seq<char>) -> Option<Seq<char>> {
    match last_label_start(s, s.len() as int) {
        Some(i) => Some(s.subrange(i + 6, word_run_end(s, i + 6))),
        None => None,
    }
}

/// The first token found among a label element's attribute values.
pub open spec fn first_token(attrs: Seq<Seq<char>>) -> Option<Seq<char>>
    decreases attrs.len(),
{
    if attrs.len() == 0 {
        None
    } else {
        match label_token(attrs[0]) {
            Some(t) => Some(t),
            None => first_token(attrs.skip(1)),
        }
    }
}

/// The label of a menu item: that of its first label element, and
/// `Missing` when it has none or the first names no label.
pub open spec fn item_label(elements: Seq<Seq<Seq<char>>>) -> Label {
    if elements.len() == 0 {
        Label::Missing
    } else {
        match first_token(elements[0]) {
            Some(t) => label_of(t),
            None => Label::Missing,
        }
    }
}

/// The attribute values of each label element, as views.
pub open spec fn elements_view(v: Seq<Vec<String>>) -> Seq<Seq<Seq<char>>> {
    v.map_values(|e: Vec<String>| e@.map_values(|s: String| s@))
}

impl Label {
    /// Classifies a class token; tokens other than the three known ones,
    /// compared exactly, give `Missing`.
    pub fn classify(token: &str) -> (r: Label)
        ensures
            r == label_of(token@),
    {
        if same_text(token, "vegan") {
            Label::Vegan
        } else if same_text(token, "vegetarian") {
            Label::Vegetarian
        } else if same_text(token, "one-climate") {
            Label::OneClimate
        } else {
            Label::Missing
        }
    }

    /// The integer code that stands for this label on the wire.
    pub fn code(&self) -> (r: u8)
        ensures
            r == label_code(*self),
    {
        match self {
            Label::Missing => 0,
            Label::Vegetarian => 1,
            Label::Vegan => 2,
            Label::OneClimate => 3,
        }
    }
}

impl From<String> for Label {
    fn from(value: String) -> (r: Label)
        ensures
            r == label_of(value@),
    {
        Label::classify(value.as_str())
    }
}

impl vstd::std_specs::convert::FromSpecImpl<String> for Label {
    open spec fn obeys_from_spec() -> bool {
        true
    }

    open spec fn from_spec(v: String) -> Label {
        label_of(v@)
    }
}

fn is_word(c: char) -> (r: bool)
    ensures
        r == is_word_char(c),
{
    ('a' <= c && c <= 'z') || ('A' <= c && c <= 'Z') || ('0' <= c && c <= '9') || c == '_'
}

fn starts_at(s: &str, n: usize, i: usize) -> (r: bool)
    requires
        n == s@.len(),
        i < n,
    ensures
        r == label_starts_at(s@, i as int),
{
    n - i > 6 && s.get_char(i) == 'l' && s.get_char(i + 1) == 'a' && s.get_char(i + 2) == 'b'
        && s.get_char(i + 3) == 'e' && s.get_char(i + 4) == 'l' && s.get_char(i + 5) == '-'
        && is_word(s.get_char(i + 6))
}

/// Finds the label token of one attribute value.
pub fn find_label_token(attr: &str) -> (r: Option<String>)
    ensures
        r matches Some(t) ==> label_token(attr@) == Some(t@),
        r is None ==> label_token(attr@) is None,
{
    let n = attr.unicode_len();
    let mut found: Option<usize> = None;
    let mut i: usize = 0;
    while i < n
        invariant
            n == attr@.len(),
            i <= n,
            found matches Some(f) ==> last_label_start(attr@, i as int) == Some(f as int),
            found is None ==> last_label_start(attr@, i as int) is None,
            found matches Some(f) ==> f + 6 < n,
        decreases n - i,
    {
        if starts_at(attr, n, i) {
            found = Some(i);
        }
        i = i + 1;
    }
    match found {
        None => None,
        Some(f) => {
            let start = f + 6;
            let mut j: usize = start;
            while j < n && is_word(attr.get_char(j))
                invariant
                    n == attr@.len(),
                    start <= j <= n,
                    word_run_end(attr@, start as int) == word_run_end(attr@, j as int),
                decreases n - j,
            {
                j = j + 1;
            }
            Some(String::from_str(attr.substring_char(start, j)))
        },
    }
}

/// Finds the first token among the attribute values of one label element.
pub fn element_token(attrs: &Vec<String>) -> (r: Option<String>)
    ensures
        r matches Some(t) ==> first_token(texts_view(attrs@)) == Some(t@),
        r is None ==> first_token(texts_view(attrs@)) is None,
{
    let mut i: usize = 0;
    assert(texts_view(attrs@).skip(0) =~= texts_view(attrs@));
    while i < attrs.len()
        invariant
            i <= attrs@.len(),
            first_token(texts_view(attrs@)) == first_token(texts_view(attrs@).skip(i as int)),
        decreases attrs@.len() - i,
    {
        let ghost rest = texts_view(attrs@).skip(i as int);
        assert(rest.skip(1) =~= texts_view(attrs@).skip(i + 1));
        let t = find_label_token(attrs[i].as_str());
        if t.is_some() {
            return t;
        }
        i = i + 1;
    }
    None
}

/// The label of a menu item from the attribute values of its label
/// elements; only the first element counts.
pub fn label_of_item(elements: &Vec<Vec<String>>) -> (r: Label)
    ensures
        r == item_label(elements_view(elements@)),
{
    if elements.len() == 0 {
        return Label::Missing;
    }
    assert(elements_view(elements@)[0] == texts_view(elements@[0]@));
    match element_token(&elements[0]) {
        Some(t) => Label::classify(t.as_str()),
        None => Label::Missing,
    }
}

} // verus!

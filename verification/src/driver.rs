//! The checks that are made before a book is translated.

use vstd::prelude::*;
use vstd::string::StringExecFns;
use crate::deepl::models::{LanguagesResponse, UsageResponse};
use crate::epub::has_extension;
use crate::text::{char_is_whitespace, chars_of, is_whitespace, joined};

verus! {

/// Whether a path names an EPUB file: its extension is `epub`.
pub open spec fn is_epub_path(path: Seq<char>) -> bool {
    has_extension(path, "epub"@)
}

/// Tells whether a path names an EPUB file.
pub fn path_is_epub(path: &str) -> (b: bool)
    ensures
        b == is_epub_path(path@),
{
    let chars = chars_of(path);
    let epub = chars_of("epub");
    crate::epub::path_has_extension(&chars, &epub)
}

/// Whether an answer says yes: it is the letter `y`, small or capital,
/// with nothing but white space around it.
pub open spec fn is_yes(answer: Seq<char>) -> bool {
    exists|i: int|
        0 <= i < answer.len() && (#[trigger] answer[i] == 'y' || answer[i] == 'Y') && forall|j: int|
            0 <= j < answer.len() && j != i ==> is_whitespace(#[trigger] answer[j])
}

/// Tells whether the user's answer to the question whether to go on says
/// yes.
pub fn confirms(answer: &str) -> (yes: bool)
    ensures
        yes == is_yes(answer@),
{
    let chars = chars_of(answer);
    let mut found: Option<usize> = None;
    let mut i: usize = 0;
    while i < chars.len()
        invariant
            i <= chars@.len(),
            chars@ == answer@,
            found matches Some(k) ==> k < i && (chars@[k as int] == 'y' || chars@[k as int] == 'Y')
                && !is_whitespace(chars@[k as int]),
            forall|j: int|
                0 <= j < i && found != Some(j as usize) ==> is_whitespace(#[trigger] chars@[j]),
        decreases chars.len() - i,
    {
        let c = chars[i];
        if !char_is_whitespace(c) {
            if found.is_some() || !(c == 'y' || c == 'Y') {
                proof {
                    // Two characters that are no white space, or one that is not the letter.
                    assert forall|k: int| 0 <= k < answer@.len() implies !((answer@[k] == 'y'
                        || answer@[k] == 'Y') && forall|j: int|
                        0 <= j < answer@.len() && j != k ==> is_whitespace(
                            #[trigger] answer@[j],
                        )) by {
                        if k != i {
                            assert(!is_whitespace(answer@[i as int]));
                        } else if found is Some {
                            assert(!is_whitespace(answer@[found->0 as int]));
                        }
                    }
                }
                return false;
            }
            found = Some(i);
        }
        i += 1;
    }
    match found {
        Some(k) => {
            assert(answer@[k as int] == 'y' || answer@[k as int] == 'Y');
            true
        },
        None => {
            assert forall|k: int| 0 <= k < answer@.len() implies !(answer@[k] == 'y' || answer@[k]
                == 'Y') by {
                assert(is_whitespace(answer@[k]));
            }
            false
        },
    }
}

/// Whether `gap` is the place of the first number without a key: every
/// number before it has a key, and it has none or is past the last number.
pub open spec fn is_first_gap(numbered: Seq<Option<String>>, gap: int) -> bool {
    &&& 0 <= gap <= numbered.len()
    &&& forall|i: int| 0 <= i < gap ==> (#[trigger] numbered[i]) is Some
    &&& gap < numbered.len() ==> numbered[gap] is None
}

/// Puts the API keys together: `primary`, then the keys found under the
/// numbers 1, 2 and so on (`numbered[0]`, `numbered[1]`, ...), as far as
/// they go without a gap. A key behind a gap is not used.
pub fn collect_keys(primary: String, numbered: Vec<Option<String>>) -> (keys: Vec<String>)
    ensures
        keys@.len() >= 1,
        keys@[0] == primary,
        is_first_gap(numbered@, keys@.len() - 1),
        forall|i: int| 0 <= i < keys@.len() - 1 ==> #[trigger] keys@[i + 1] == numbered@[i]->0,
{
    let mut keys: Vec<String> = Vec::new();
    keys.push(primary);
    let mut i: usize = 0;
    while i < numbered.len()
        invariant
            i <= numbered@.len(),
            keys@.len() == i + 1,
            keys@[0] == primary,
            forall|k: int| 0 <= k < i ==> (#[trigger] numbered@[k]) is Some,
            forall|k: int| 0 <= k < i ==> #[trigger] keys@[k + 1] == numbered@[k]->0,
        decreases numbered.len() - i,
    {
        match &numbered[i] {
            Some(key) => {
                keys.push(key.clone());
            },
            None => {
                return keys;
            },
        }
        i += 1;
    }
    keys
}

/// The codes of the first `n` languages, joined by a comma and a space.
pub open spec fn codes_upto(languages: LanguagesResponse, n: int) -> Seq<char>
    decreases n,
{
    if n <= 0 {
        Seq::empty()
    } else if n == 1 {
        languages.0@[0].language@
    } else {
        codes_upto(languages, n - 1) + ", "@ + languages.0@[n - 1].language@
    }
}

/// Lists the codes of the languages that the service offers, for the
/// message that refuses an unknown target language.
pub fn supported_codes(languages: &LanguagesResponse) -> (list: String)
    ensures
        list@ == codes_upto(*languages, languages.0@.len() as int),
{
    let mut list = String::new();
    let mut i: usize = 0;
    while i < languages.0.len()
        invariant
            i <= languages.0@.len(),
            list@ == codes_upto(*languages, i as int),
        decreases languages.0.len() - i,
    {
        if i > 0 {
            list.append(", ");
        }
        list.append(languages.0[i].language.as_str());
        assert(list@ =~= codes_upto(*languages, i + 1));
        i += 1;
    }
    list
}

/// The decimal digit for a number below ten.
pub open spec fn spec_digit(d: int) -> Seq<char> {
    if d == 0 {
        "0"@
    } else if d == 1 {
        "1"@
    } else if d == 2 {
        "2"@
    } else if d == 3 {
        "3"@
    } else if d == 4 {
        "4"@
    } else if d == 5 {
        "5"@
    } else if d == 6 {
        "6"@
    } else if d == 7 {
        "7"@
    } else if d == 8 {
        "8"@
    } else {
        "9"@
    }
}

/// A number written in decimal digits, without leading zeros.
pub open spec fn spec_decimal(n: nat) -> Seq<char>
    decreases n,
{
    if n < 10 {
        spec_digit(n as int)
    } else {
        spec_decimal(n / 10) + spec_digit((n % 10) as int)
    }
}

fn digit(d: u128) -> (text: &'static str)
    requires
        d < 10,
    ensures
        text@ == spec_digit(d as int),
{
    if d == 0 {
        "0"
    } else if d == 1 {
        "1"
    } else if d == 2 {
        "2"
    } else if d == 3 {
        "3"
    } else if d == 4 {
        "4"
    } else if d == 5 {
        "5"
    } else if d == 6 {
        "6"
    } else if d == 7 {
        "7"
    } else if d == 8 {
        "8"
    } else {
        "9"
    }
}

/// Writes a number in decimal digits.
pub fn decimal(n: u128) -> (text: String)
    ensures
        text@ == spec_decimal(n as nat),
    decreases n,
{
    if n < 10 {
        String::from_str(digit(n))
    } else {
        let mut text = decimal(n / 10);
        text.append(digit(n % 10));
        text
    }
}

/// What the user is shown before being asked whether to go on.
pub open spec fn spec_preflight_report(usage: UsageResponse, capacity: nat, characters: nat) -> Seq<
    char,
> {
    "DeepL Usage: Your limit is: "@ + spec_decimal(usage.character_limit as nat)
        + ", you have already use: "@ + spec_decimal(usage.character_count as nat)
        + "\n Your character translation capacity is "@ + spec_decimal(capacity)
        + "\n Number of characters to translate: "@ + spec_decimal(characters)
}

/// Puts together what the user is shown before being asked whether to go
/// on: the quota and what was used of it, what is left in all credentials
/// together, and how much there is to translate.
pub fn preflight_report(usage: &UsageResponse, capacity: u128, characters: u128) -> (report: String)
    ensures
        report@ == spec_preflight_report(*usage, capacity as nat, characters as nat),
{
    let mut report = joined(
        "DeepL Usage: Your limit is: ",
        decimal(usage.character_limit as u128).as_str(),
    );
    report.append(", you have already use: ");
    report.append(decimal(usage.character_count as u128).as_str());
    report.append("\n Your character translation capacity is ");
    report.append(decimal(capacity).as_str());
    report.append("\n Number of characters to translate: ");
    report.append(decimal(characters).as_str());
    report
}

} // verus!

//! The command surface shared by the interactive shells: the output
//! shapes they render, number parsing in digits and English words, surah
//! name fallbacks, and the fixed help text.

use vstd::prelude::*;
use crate::consolidate::AnalysisToken;
use crate::num::{dec_rep_i64, int_str_val, is_int_str};
use crate::text::{chars_of, concat_chars, lower_seq, string_of, trimmed, ws_words};

verus! {

/// A verse as a shell displays it.
pub struct VerseOutput {
    pub surah: i64,
    pub ayah: i64,
    pub text: String,
    pub tokens: Option<Vec<String>>,
    pub legend: Option<String>,
}

/// A linguistic analysis as a shell displays it.
pub struct AnalysisOutput {
    pub header: Option<String>,
    pub verse_ref: Option<String>,
    pub text: Option<String>,
    pub tree: Option<String>,
    pub tokens: Option<Vec<AnalysisToken>>,
}

/// One unit of shell output.
pub enum CommandOutput {
    Verse(VerseOutput),
    Analysis(AnalysisOutput),
    Clear,
    Pager { content: String },
    Error { message: String },
    Warning { message: String },
    Info { message: String },
}

/// The result of one executed command: its output, the next prompt, and
/// an optional prefill for the input line.
pub struct CommandResult {
    pub output: Option<CommandOutput>,
    pub prompt: String,
    pub prefill: Option<String>,
}

/// A command's response before the prompt is attached.
pub struct CommandResponse {
    pub output: CommandOutput,
    pub prefill: Option<String>,
}

/// Wraps an output into a response without a prefill.
pub fn resp(output: CommandOutput) -> (r: CommandResponse)
    ensures
        r.output == output,
        r.prefill is None,
{
    CommandResponse { output, prefill: None }
}

/// The traditional Arabic name of each of the 114 surahs.
pub open spec fn arabic_name(n: int) -> Seq<char> {
    if n == 1 {
        "\u{627}\u{644}\u{641}\u{627}\u{62a}\u{62d}\u{629}"@
    } else if n == 2 {
        "\u{627}\u{644}\u{628}\u{642}\u{631}\u{629}"@
    } else if n == 3 {
        "\u{622}\u{644} \u{639}\u{645}\u{631}\u{627}\u{646}"@
    } else if n == 4 {
        "\u{627}\u{644}\u{646}\u{633}\u{627}\u{621}"@
    } else if n == 5 {
        "\u{627}\u{644}\u{645}\u{627}\u{626}\u{62f}\u{629}"@
    } else if n == 6 {
        "\u{627}\u{644}\u{623}\u{646}\u{639}\u{627}\u{645}"@
    } else if n == 7 {
        "\u{627}\u{644}\u{623}\u{639}\u{631}\u{627}\u{641}"@
    } else if n == 8 {
        "\u{627}\u{644}\u{623}\u{646}\u{641}\u{627}\u{644}"@
    } else if n == 9 {
        "\u{627}\u{644}\u{62a}\u{648}\u{628}\u{629}"@
    } else if n == 10 {
        "\u{64a}\u{648}\u{646}\u{633}"@
    } else if n == 11 {
        "\u{647}\u{648}\u{62f}"@
    } else if n == 12 {
        "\u{64a}\u{648}\u{633}\u{641}"@
    } else if n == 13 {
        "\u{627}\u{644}\u{631}\u{639}\u{62f}"@
    } else if n == 14 {
        "\u{625}\u{628}\u{631}\u{627}\u{647}\u{64a}\u{645}"@
    } else if n == 15 {
        "\u{627}\u{644}\u{62d}\u{62c}\u{631}"@
    } else if n == 16 {
        "\u{627}\u{644}\u{646}\u{62d}\u{644}"@
    } else if n == 17 {
        "\u{627}\u{644}\u{625}\u{633}\u{631}\u{627}\u{621}"@
    } else if n == 18 {
        "\u{627}\u{644}\u{643}\u{647}\u{641}"@
    } else if n == 19 {
        "\u{645}\u{631}\u{64a}\u{645}"@
    } else if n == 20 {
        "\u{637}\u{647}"@
    } else if n == 21 {
        "\u{627}\u{644}\u{623}\u{646}\u{628}\u{64a}\u{627}\u{621}"@
    } else if n == 22 {
        "\u{627}\u{644}\u{62d}\u{62c}"@
    } else if n == 23 {
        "\u{627}\u{644}\u{645}\u{624}\u{645}\u{646}\u{648}\u{646}"@
    } else if n == 24 {
        "\u{627}\u{644}\u{646}\u{648}\u{631}"@
    } else if n == 25 {
        "\u{627}\u{644}\u{641}\u{631}\u{642}\u{627}\u{646}"@
    } else if n == 26 {
        "\u{627}\u{644}\u{634}\u{639}\u{631}\u{627}\u{621}"@
    } else if n == 27 {
        "\u{627}\u{644}\u{646}\u{645}\u{644}"@
    } else if n == 28 {
        "\u{627}\u{644}\u{642}\u{635}\u{635}"@
    } else if n == 29 {
        "\u{627}\u{644}\u{639}\u{646}\u{643}\u{628}\u{648}\u{62a}"@
    } else if n == 30 {
        "\u{627}\u{644}\u{631}\u{648}\u{645}"@
    } else if n == 31 {
        "\u{644}\u{642}\u{645}\u{627}\u{646}"@
    } else if n == 32 {
        "\u{627}\u{644}\u{633}\u{62c}\u{62f}\u{629}"@
    } else if n == 33 {
        "\u{627}\u{644}\u{623}\u{62d}\u{632}\u{627}\u{628}"@
    } else if n == 34 {
        "\u{633}\u{628}\u{625}"@
    } else if n == 35 {
        "\u{641}\u{627}\u{637}\u{631}"@
    } else if n == 36 {
        "\u{64a}\u{633}"@
    } else if n == 37 {
        "\u{627}\u{644}\u{635}\u{627}\u{641}\u{627}\u{62a}"@
    } else if n == 38 {
        "\u{635}"@
    } else if n == 39 {
        "\u{627}\u{644}\u{632}\u{645}\u{631}"@
    } else if n == 40 {
        "\u{63a}\u{627}\u{641}\u{631}"@
    } else if n == 41 {
        "\u{641}\u{635}\u{644}\u{62a}"@
    } else if n == 42 {
        "\u{627}\u{644}\u{634}\u{648}\u{631}\u{649}"@
    } else if n == 43 {
        "\u{627}\u{644}\u{632}\u{62e}\u{631}\u{641}"@
    } else if n == 44 {
        "\u{627}\u{644}\u{62f}\u{62e}\u{627}\u{646}"@
    } else if n == 45 {
        "\u{627}\u{644}\u{62c}\u{627}\u{62b}\u{64a}\u{629}"@
    } else if n == 46 {
        "\u{627}\u{644}\u{623}\u{62d}\u{642}\u{627}\u{641}"@
    } else if n == 47 {
        "\u{645}\u{62d}\u{645}\u{62f}"@
    } else if n == 48 {
        "\u{627}\u{644}\u{641}\u{62a}\u{62d}"@
    } else if n == 49 {
        "\u{627}\u{644}\u{62d}\u{62c}\u{631}\u{627}\u{62a}"@
    } else if n == 50 {
        "\u{642}"@
    } else if n == 51 {
        "\u{627}\u{644}\u{630}\u{627}\u{631}\u{64a}\u{627}\u{62a}"@
    } else if n == 52 {
        "\u{627}\u{644}\u{637}\u{648}\u{631}"@
    } else if n == 53 {
        "\u{627}\u{644}\u{646}\u{62c}\u{645}"@
    } else if n == 54 {
        "\u{627}\u{644}\u{642}\u{645}\u{631}"@
    } else if n == 55 {
        "\u{627}\u{644}\u{631}\u{62d}\u{645}\u{646}"@
    } else if n == 56 {
        "\u{627}\u{644}\u{648}\u{627}\u{642}\u{639}\u{629}"@
    } else if n == 57 {
        "\u{627}\u{644}\u{62d}\u{62f}\u{64a}\u{62f}"@
    } else if n == 58 {
        "\u{627}\u{644}\u{645}\u{62c}\u{627}\u{62f}\u{644}\u{629}"@
    } else if n == 59 {
        "\u{627}\u{644}\u{62d}\u{634}\u{631}"@
    } else if n == 60 {
        "\u{627}\u{644}\u{645}\u{645}\u{62a}\u{62d}\u{646}\u{629}"@
    } else if n == 61 {
        "\u{627}\u{644}\u{635}\u{641}"@
    } else if n == 62 {
        "\u{627}\u{644}\u{62c}\u{645}\u{639}\u{629}"@
    } else if n == 63 {
        "\u{627}\u{644}\u{645}\u{646}\u{627}\u{641}\u{642}\u{648}\u{646}"@
    } else if n == 64 {
        "\u{627}\u{644}\u{62a}\u{63a}\u{627}\u{628}\u{646}"@
    } else if n == 65 {
        "\u{627}\u{644}\u{637}\u{644}\u{627}\u{642}"@
    } else if n == 66 {
        "\u{627}\u{644}\u{62a}\u{62d}\u{631}\u{64a}\u{645}"@
    } else if n == 67 {
        "\u{627}\u{644}\u{645}\u{644}\u{643}"@
    } else if n == 68 {
        "\u{627}\u{644}\u{642}\u{644}\u{645}"@
    } else if n == 69 {
        "\u{627}\u{644}\u{62d}\u{627}\u{642}\u{629}"@
    } else if n == 70 {
        "\u{627}\u{644}\u{645}\u{639}\u{627}\u{631}\u{62c}"@
    } else if n == 71 {
        "\u{646}\u{648}\u{62d}"@
    } else if n == 72 {
        "\u{627}\u{644}\u{62c}\u{646}"@
    } else if n == 73 {
        "\u{627}\u{644}\u{645}\u{632}\u{645}\u{644}"@
    } else if n == 74 {
        "\u{627}\u{644}\u{645}\u{62f}\u{62b}\u{631}"@
    } else if n == 75 {
        "\u{627}\u{644}\u{642}\u{64a}\u{627}\u{645}\u{629}"@
    } else if n == 76 {
        "\u{627}\u{644}\u{625}\u{646}\u{633}\u{627}\u{646}"@
    } else if n == 77 {
        "\u{627}\u{644}\u{645}\u{631}\u{633}\u{644}\u{627}\u{62a}"@
    } else if n == 78 {
        "\u{627}\u{644}\u{646}\u{628}\u{625}"@
    } else if n == 79 {
        "\u{627}\u{644}\u{646}\u{627}\u{632}\u{639}\u{627}\u{62a}"@
    } else if n == 80 {
        "\u{639}\u{628}\u{633}"@
    } else if n == 81 {
        "\u{627}\u{644}\u{62a}\u{643}\u{648}\u{64a}\u{631}"@
    } else if n == 82 {
        "\u{627}\u{644}\u{627}\u{646}\u{641}\u{637}\u{627}\u{631}"@
    } else if n == 83 {
        "\u{627}\u{644}\u{645}\u{637}\u{641}\u{641}\u{64a}\u{646}"@
    } else if n == 84 {
        "\u{627}\u{644}\u{627}\u{646}\u{634}\u{642}\u{627}\u{642}"@
    } else if n == 85 {
        "\u{627}\u{644}\u{628}\u{631}\u{648}\u{62c}"@
    } else if n == 86 {
        "\u{627}\u{644}\u{637}\u{627}\u{631}\u{642}"@
    } else if n == 87 {
        "\u{627}\u{644}\u{623}\u{639}\u{644}\u{649}"@
    } else if n == 88 {
        "\u{627}\u{644}\u{63a}\u{627}\u{634}\u{64a}\u{629}"@
    } else if n == 89 {
        "\u{627}\u{644}\u{641}\u{62c}\u{631}"@
    } else if n == 90 {
        "\u{627}\u{644}\u{628}\u{644}\u{62f}"@
    } else if n == 91 {
        "\u{627}\u{644}\u{634}\u{645}\u{633}"@
    } else if n == 92 {
        "\u{627}\u{644}\u{644}\u{64a}\u{644}"@
    } else if n == 93 {
        "\u{627}\u{644}\u{636}\u{62d}\u{649}"@
    } else if n == 94 {
        "\u{627}\u{644}\u{634}\u{631}\u{62d}"@
    } else if n == 95 {
        "\u{627}\u{644}\u{62a}\u{64a}\u{646}"@
    } else if n == 96 {
        "\u{627}\u{644}\u{639}\u{644}\u{642}"@
    } else if n == 97 {
        "\u{627}\u{644}\u{642}\u{62f}\u{631}"@
    } else if n == 98 {
        "\u{627}\u{644}\u{628}\u{64a}\u{646}\u{629}"@
    } else if n == 99 {
        "\u{627}\u{644}\u{632}\u{644}\u{632}\u{644}\u{629}"@
    } else if n == 100 {
        "\u{627}\u{644}\u{639}\u{627}\u{62f}\u{64a}\u{627}\u{62a}"@
    } else if n == 101 {
        "\u{627}\u{644}\u{642}\u{627}\u{631}\u{639}\u{629}"@
    } else if n == 102 {
        "\u{627}\u{644}\u{62a}\u{643}\u{627}\u{62b}\u{631}"@
    } else if n == 103 {
        "\u{627}\u{644}\u{639}\u{635}\u{631}"@
    } else if n == 104 {
        "\u{627}\u{644}\u{647}\u{645}\u{632}\u{629}"@
    } else if n == 105 {
        "\u{627}\u{644}\u{641}\u{64a}\u{644}"@
    } else if n == 106 {
        "\u{642}\u{631}\u{64a}\u{634}"@
    } else if n == 107 {
        "\u{627}\u{644}\u{645}\u{627}\u{639}\u{648}\u{646}"@
    } else if n == 108 {
        "\u{627}\u{644}\u{643}\u{648}\u{62b}\u{631}"@
    } else if n == 109 {
        "\u{627}\u{644}\u{643}\u{627}\u{641}\u{631}\u{648}\u{646}"@
    } else if n == 110 {
        "\u{627}\u{644}\u{646}\u{635}\u{631}"@
    } else if n == 111 {
        "\u{627}\u{644}\u{645}\u{633}\u{62f}"@
    } else if n == 112 {
        "\u{627}\u{644}\u{625}\u{62e}\u{644}\u{627}\u{635}"@
    } else if n == 113 {
        "\u{627}\u{644}\u{641}\u{644}\u{642}"@
    } else if n == 114 {
        "\u{627}\u{644}\u{646}\u{627}\u{633}"@
    } else {
        Seq::empty()
    }
}

/// Returns the traditional Arabic surah name.
pub fn arabic_surah_name(number: i64) -> (r: &'static str)
    requires
        1 <= number <= 114,
    ensures
        r@ == arabic_name(number as int),
{
    if number == 1 {
        "\u{627}\u{644}\u{641}\u{627}\u{62a}\u{62d}\u{629}"
    } else if number == 2 {
        "\u{627}\u{644}\u{628}\u{642}\u{631}\u{629}"
    } else if number == 3 {
        "\u{622}\u{644} \u{639}\u{645}\u{631}\u{627}\u{646}"
    } else if number == 4 {
        "\u{627}\u{644}\u{646}\u{633}\u{627}\u{621}"
    } else if number == 5 {
        "\u{627}\u{644}\u{645}\u{627}\u{626}\u{62f}\u{629}"
    } else if number == 6 {
        "\u{627}\u{644}\u{623}\u{646}\u{639}\u{627}\u{645}"
    } else if number == 7 {
        "\u{627}\u{644}\u{623}\u{639}\u{631}\u{627}\u{641}"
    } else if number == 8 {
        "\u{627}\u{644}\u{623}\u{646}\u{641}\u{627}\u{644}"
    } else if number == 9 {
        "\u{627}\u{644}\u{62a}\u{648}\u{628}\u{629}"
    } else if number == 10 {
        "\u{64a}\u{648}\u{646}\u{633}"
    } else if number == 11 {
        "\u{647}\u{648}\u{62f}"
    } else if number == 12 {
        "\u{64a}\u{648}\u{633}\u{641}"
    } else if number == 13 {
        "\u{627}\u{644}\u{631}\u{639}\u{62f}"
    } else if number == 14 {
        "\u{625}\u{628}\u{631}\u{627}\u{647}\u{64a}\u{645}"
    } else if number == 15 {
        "\u{627}\u{644}\u{62d}\u{62c}\u{631}"
    } else if number == 16 {
        "\u{627}\u{644}\u{646}\u{62d}\u{644}"
    } else if number == 17 {
        "\u{627}\u{644}\u{625}\u{633}\u{631}\u{627}\u{621}"
    } else if number == 18 {
        "\u{627}\u{644}\u{643}\u{647}\u{641}"
    } else if number == 19 {
        "\u{645}\u{631}\u{64a}\u{645}"
    } else if number == 20 {
        "\u{637}\u{647}"
    } else if number == 21 {
        "\u{627}\u{644}\u{623}\u{646}\u{628}\u{64a}\u{627}\u{621}"
    } else if number == 22 {
        "\u{627}\u{644}\u{62d}\u{62c}"
    } else if number == 23 {
        "\u{627}\u{644}\u{645}\u{624}\u{645}\u{646}\u{648}\u{646}"
    } else if number == 24 {
        "\u{627}\u{644}\u{646}\u{648}\u{631}"
    } else if number == 25 {
        "\u{627}\u{644}\u{641}\u{631}\u{642}\u{627}\u{646}"
    } else if number == 26 {
        "\u{627}\u{644}\u{634}\u{639}\u{631}\u{627}\u{621}"
    } else if number == 27 {
        "\u{627}\u{644}\u{646}\u{645}\u{644}"
    } else if number == 28 {
        "\u{627}\u{644}\u{642}\u{635}\u{635}"
    } else if number == 29 {
        "\u{627}\u{644}\u{639}\u{646}\u{643}\u{628}\u{648}\u{62a}"
    } else if number == 30 {
        "\u{627}\u{644}\u{631}\u{648}\u{645}"
    } else if number == 31 {
        "\u{644}\u{642}\u{645}\u{627}\u{646}"
    } else if number == 32 {
        "\u{627}\u{644}\u{633}\u{62c}\u{62f}\u{629}"
    } else if number == 33 {
        "\u{627}\u{644}\u{623}\u{62d}\u{632}\u{627}\u{628}"
    } else if number == 34 {
        "\u{633}\u{628}\u{625}"
    } else if number == 35 {
        "\u{641}\u{627}\u{637}\u{631}"
    } else if number == 36 {
        "\u{64a}\u{633}"
    } else if number == 37 {
        "\u{627}\u{644}\u{635}\u{627}\u{641}\u{627}\u{62a}"
    } else if number == 38 {
        "\u{635}"
    } else if number == 39 {
        "\u{627}\u{644}\u{632}\u{645}\u{631}"
    } else if number == 40 {
        "\u{63a}\u{627}\u{641}\u{631}"
    } else if number == 41 {
        "\u{641}\u{635}\u{644}\u{62a}"
    } else if number == 42 {
        "\u{627}\u{644}\u{634}\u{648}\u{631}\u{649}"
    } else if number == 43 {
        "\u{627}\u{644}\u{632}\u{62e}\u{631}\u{641}"
    } else if number == 44 {
        "\u{627}\u{644}\u{62f}\u{62e}\u{627}\u{646}"
    } else if number == 45 {
        "\u{627}\u{644}\u{62c}\u{627}\u{62b}\u{64a}\u{629}"
    } else if number == 46 {
        "\u{627}\u{644}\u{623}\u{62d}\u{642}\u{627}\u{641}"
    } else if number == 47 {
        "\u{645}\u{62d}\u{645}\u{62f}"
    } else if number == 48 {
        "\u{627}\u{644}\u{641}\u{62a}\u{62d}"
    } else if number == 49 {
        "\u{627}\u{644}\u{62d}\u{62c}\u{631}\u{627}\u{62a}"
    } else if number == 50 {
        "\u{642}"
    } else if number == 51 {
        "\u{627}\u{644}\u{630}\u{627}\u{631}\u{64a}\u{627}\u{62a}"
    } else if number == 52 {
        "\u{627}\u{644}\u{637}\u{648}\u{631}"
    } else if number == 53 {
        "\u{627}\u{644}\u{646}\u{62c}\u{645}"
    } else if number == 54 {
        "\u{627}\u{644}\u{642}\u{645}\u{631}"
    } else if number == 55 {
        "\u{627}\u{644}\u{631}\u{62d}\u{645}\u{646}"
    } else if number == 56 {
        "\u{627}\u{644}\u{648}\u{627}\u{642}\u{639}\u{629}"
    } else if number == 57 {
        "\u{627}\u{644}\u{62d}\u{62f}\u{64a}\u{62f}"
    } else if number == 58 {
        "\u{627}\u{644}\u{645}\u{62c}\u{627}\u{62f}\u{644}\u{629}"
    } else if number == 59 {
        "\u{627}\u{644}\u{62d}\u{634}\u{631}"
    } else if number == 60 {
        "\u{627}\u{644}\u{645}\u{645}\u{62a}\u{62d}\u{646}\u{629}"
    } else if number == 61 {
        "\u{627}\u{644}\u{635}\u{641}"
    } else if number == 62 {
        "\u{627}\u{644}\u{62c}\u{645}\u{639}\u{629}"
    } else if number == 63 {
        "\u{627}\u{644}\u{645}\u{646}\u{627}\u{641}\u{642}\u{648}\u{646}"
    } else if number == 64 {
        "\u{627}\u{644}\u{62a}\u{63a}\u{627}\u{628}\u{646}"
    } else if number == 65 {
        "\u{627}\u{644}\u{637}\u{644}\u{627}\u{642}"
    } else if number == 66 {
        "\u{627}\u{644}\u{62a}\u{62d}\u{631}\u{64a}\u{645}"
    } else if number == 67 {
        "\u{627}\u{644}\u{645}\u{644}\u{643}"
    } else if number == 68 {
        "\u{627}\u{644}\u{642}\u{644}\u{645}"
    } else if number == 69 {
        "\u{627}\u{644}\u{62d}\u{627}\u{642}\u{629}"
    } else if number == 70 {
        "\u{627}\u{644}\u{645}\u{639}\u{627}\u{631}\u{62c}"
    } else if number == 71 {
        "\u{646}\u{648}\u{62d}"
    } else if number == 72 {
        "\u{627}\u{644}\u{62c}\u{646}"
    } else if number == 73 {
        "\u{627}\u{644}\u{645}\u{632}\u{645}\u{644}"
    } else if number == 74 {
        "\u{627}\u{644}\u{645}\u{62f}\u{62b}\u{631}"
    } else if number == 75 {
        "\u{627}\u{644}\u{642}\u{64a}\u{627}\u{645}\u{629}"
    } else if number == 76 {
        "\u{627}\u{644}\u{625}\u{646}\u{633}\u{627}\u{646}"
    } else if number == 77 {
        "\u{627}\u{644}\u{645}\u{631}\u{633}\u{644}\u{627}\u{62a}"
    } else if number == 78 {
        "\u{627}\u{644}\u{646}\u{628}\u{625}"
    } else if number == 79 {
        "\u{627}\u{644}\u{646}\u{627}\u{632}\u{639}\u{627}\u{62a}"
    } else if number == 80 {
        "\u{639}\u{628}\u{633}"
    } else if number == 81 {
        "\u{627}\u{644}\u{62a}\u{643}\u{648}\u{64a}\u{631}"
    } else if number == 82 {
        "\u{627}\u{644}\u{627}\u{646}\u{641}\u{637}\u{627}\u{631}"
    } else if number == 83 {
        "\u{627}\u{644}\u{645}\u{637}\u{641}\u{641}\u{64a}\u{646}"
    } else if number == 84 {
        "\u{627}\u{644}\u{627}\u{646}\u{634}\u{642}\u{627}\u{642}"
    } else if number == 85 {
        "\u{627}\u{644}\u{628}\u{631}\u{648}\u{62c}"
    } else if number == 86 {
        "\u{627}\u{644}\u{637}\u{627}\u{631}\u{642}"
    } else if number == 87 {
        "\u{627}\u{644}\u{623}\u{639}\u{644}\u{649}"
    } else if number == 88 {
        "\u{627}\u{644}\u{63a}\u{627}\u{634}\u{64a}\u{629}"
    } else if number == 89 {
        "\u{627}\u{644}\u{641}\u{62c}\u{631}"
    } else if number == 90 {
        "\u{627}\u{644}\u{628}\u{644}\u{62f}"
    } else if number == 91 {
        "\u{627}\u{644}\u{634}\u{645}\u{633}"
    } else if number == 92 {
        "\u{627}\u{644}\u{644}\u{64a}\u{644}"
    } else if number == 93 {
        "\u{627}\u{644}\u{636}\u{62d}\u{649}"
    } else if number == 94 {
        "\u{627}\u{644}\u{634}\u{631}\u{62d}"
    } else if number == 95 {
        "\u{627}\u{644}\u{62a}\u{64a}\u{646}"
    } else if number == 96 {
        "\u{627}\u{644}\u{639}\u{644}\u{642}"
    } else if number == 97 {
        "\u{627}\u{644}\u{642}\u{62f}\u{631}"
    } else if number == 98 {
        "\u{627}\u{644}\u{628}\u{64a}\u{646}\u{629}"
    } else if number == 99 {
        "\u{627}\u{644}\u{632}\u{644}\u{632}\u{644}\u{629}"
    } else if number == 100 {
        "\u{627}\u{644}\u{639}\u{627}\u{62f}\u{64a}\u{627}\u{62a}"
    } else if number == 101 {
        "\u{627}\u{644}\u{642}\u{627}\u{631}\u{639}\u{629}"
    } else if number == 102 {
        "\u{627}\u{644}\u{62a}\u{643}\u{627}\u{62b}\u{631}"
    } else if number == 103 {
        "\u{627}\u{644}\u{639}\u{635}\u{631}"
    } else if number == 104 {
        "\u{627}\u{644}\u{647}\u{645}\u{632}\u{629}"
    } else if number == 105 {
        "\u{627}\u{644}\u{641}\u{64a}\u{644}"
    } else if number == 106 {
        "\u{642}\u{631}\u{64a}\u{634}"
    } else if number == 107 {
        "\u{627}\u{644}\u{645}\u{627}\u{639}\u{648}\u{646}"
    } else if number == 108 {
        "\u{627}\u{644}\u{643}\u{648}\u{62b}\u{631}"
    } else if number == 109 {
        "\u{627}\u{644}\u{643}\u{627}\u{641}\u{631}\u{648}\u{646}"
    } else if number == 110 {
        "\u{627}\u{644}\u{646}\u{635}\u{631}"
    } else if number == 111 {
        "\u{627}\u{644}\u{645}\u{633}\u{62f}"
    } else if number == 112 {
        "\u{627}\u{644}\u{625}\u{62e}\u{644}\u{627}\u{635}"
    } else if number == 113 {
        "\u{627}\u{644}\u{641}\u{644}\u{642}"
    } else if number == 114 {
        "\u{627}\u{644}\u{646}\u{627}\u{633}"
    } else {
        ""
    }
}

/// The displayed name of a surah: its stored name when one is set, the
/// traditional Arabic name for numbers one through one hundred fourteen,
/// and a plain `Surah N` caption otherwise.
pub open spec fn surah_display_name(number: int, name: Seq<char>) -> Seq<char> {
    if trimmed(name).len() > 0 {
        trimmed(name)
    } else if 1 <= number <= 114 {
        arabic_name(number)
    } else {
        "Surah "@ + dec_rep_i64(number)
    }
}

/// Returns the displayed name of a surah.
pub fn surah_name_or_fallback(number: i64, name: &str) -> (r: String)
    ensures
        r@ == surah_display_name(number as int, name@),
{
    let nv = chars_of(name);
    let t = crate::text::trim_chars(&nv);
    if t.len() > 0 {
        string_of(&t)
    } else if 1 <= number && number <= 114 {
        arabic_surah_name(number).to_owned()
    } else {
        let a = chars_of("Surah ");
        let b = crate::num::i64_chars(number);
        let ab = concat_chars(&a, &b);
        string_of(&ab)
    }
}

/// The value of one English number word, when it is one.
pub open spec fn word_val(w: Seq<char>) -> Option<int> {
    if w == "zero"@ { Some(0int) }
    else if w == "one"@ { Some(1int) }
    else if w == "two"@ { Some(2int) }
    else if w == "three"@ { Some(3int) }
    else if w == "four"@ { Some(4int) }
    else if w == "five"@ { Some(5int) }
    else if w == "six"@ { Some(6int) }
    else if w == "seven"@ { Some(7int) }
    else if w == "eight"@ { Some(8int) }
    else if w == "nine"@ { Some(9int) }
    else if w == "ten"@ { Some(10int) }
    else if w == "eleven"@ { Some(11int) }
    else if w == "twelve"@ { Some(12int) }
    else if w == "thirteen"@ { Some(13int) }
    else if w == "fourteen"@ { Some(14int) }
    else if w == "fifteen"@ { Some(15int) }
    else if w == "sixteen"@ { Some(16int) }
    else if w == "seventeen"@ { Some(17int) }
    else if w == "eighteen"@ { Some(18int) }
    else if w == "nineteen"@ { Some(19int) }
    else if w == "twenty"@ { Some(20int) }
    else if w == "thirty"@ { Some(30int) }
    else if w == "forty"@ { Some(40int) }
    else if w == "fifty"@ { Some(50int) }
    else if w == "sixty"@ { Some(60int) }
    else if w == "seventy"@ { Some(70int) }
    else if w == "eighty"@ { Some(80int) }
    else if w == "ninety"@ { Some(90int) }
    else if w == "hundred"@ { Some(100int) }
    else if w == "thousand"@ { Some(1000int) }
    else { None }
}

fn word_val_exec(w: &Vec<char>) -> (r: Option<i64>)
    ensures
        match r {
            Some(v) => word_val(w@) == Some(v as int),
            None => word_val(w@) is None,
        },
{
    if crate::text::chars_eq_str(w, "zero") { Some(0) }
    else if crate::text::chars_eq_str(w, "one") { Some(1) }
    else if crate::text::chars_eq_str(w, "two") { Some(2) }
    else if crate::text::chars_eq_str(w, "three") { Some(3) }
    else if crate::text::chars_eq_str(w, "four") { Some(4) }
    else if crate::text::chars_eq_str(w, "five") { Some(5) }
    else if crate::text::chars_eq_str(w, "six") { Some(6) }
    else if crate::text::chars_eq_str(w, "seven") { Some(7) }
    else if crate::text::chars_eq_str(w, "eight") { Some(8) }
    else if crate::text::chars_eq_str(w, "nine") { Some(9) }
    else if crate::text::chars_eq_str(w, "ten") { Some(10) }
    else if crate::text::chars_eq_str(w, "eleven") { Some(11) }
    else if crate::text::chars_eq_str(w, "twelve") { Some(12) }
    else if crate::text::chars_eq_str(w, "thirteen") { Some(13) }
    else if crate::text::chars_eq_str(w, "fourteen") { Some(14) }
    else if crate::text::chars_eq_str(w, "fifteen") { Some(15) }
    else if crate::text::chars_eq_str(w, "sixteen") { Some(16) }
    else if crate::text::chars_eq_str(w, "seventeen") { Some(17) }
    else if crate::text::chars_eq_str(w, "eighteen") { Some(18) }
    else if crate::text::chars_eq_str(w, "nineteen") { Some(19) }
    else if crate::text::chars_eq_str(w, "twenty") { Some(20) }
    else if crate::text::chars_eq_str(w, "thirty") { Some(30) }
    else if crate::text::chars_eq_str(w, "forty") { Some(40) }
    else if crate::text::chars_eq_str(w, "fifty") { Some(50) }
    else if crate::text::chars_eq_str(w, "sixty") { Some(60) }
    else if crate::text::chars_eq_str(w, "seventy") { Some(70) }
    else if crate::text::chars_eq_str(w, "eighty") { Some(80) }
    else if crate::text::chars_eq_str(w, "ninety") { Some(90) }
    else if crate::text::chars_eq_str(w, "hundred") { Some(100) }
    else if crate::text::chars_eq_str(w, "thousand") { Some(1000) }
    else { None }
}

/// The accumulator after folding one number word: a multiplier word
/// scales what was gathered so far (an empty gathering counts as one), a
/// smaller word adds on.
pub open spec fn word_step(acc: int, v: int) -> int {
    if v >= 100 {
        (if acc == 0 { 1int } else { acc }) * v
    } else {
        acc + v
    }
}

/// The value of a compound number phrase, `None` when a word is unknown.
pub open spec fn words_val(ws: Seq<Seq<char>>, acc: int) -> Option<int>
    decreases ws.len(),
{
    if ws.len() == 0 {
        Some(acc)
    } else {
        match word_val(ws[0]) {
            Some(v) => words_val(ws.skip(1), word_step(acc, v)),
            None => None,
        }
    }
}

/// What parsing a number phrase yields: a plain signed numeral when the
/// trimmed input reads as one; otherwise one known number word, or a
/// compound phrase of known words folded left to right.
pub open spec fn number_val(s: Seq<char>) -> Option<int> {
    let t = trimmed(s);
    if is_int_str(t) && i64::MIN <= int_str_val(t) <= i64::MAX {
        Some(int_str_val(t))
    } else {
        let lower = lower_seq(t);
        let parts = ws_words(lower);
        if parts.len() == 1 {
            word_val(parts[0])
        } else {
            words_val(parts, 0)
        }
    }
}

/// Parses a number given in digits or in English words.  Succeeds exactly
/// when the input reads as one and its value fits in `i64`; a compound
/// phrase whose value overflows is rejected.
pub fn parse_number(s: &str) -> (r: crate::model::EngineResult<i64>)
    ensures
        match r {
            Ok(v) => number_val(s@) == Some(v as int),
            Err(e) => (number_val(s@) is None || !(i64::MIN <= number_val(s@).unwrap()
                <= i64::MAX)) && e is Invalid,
        },
{
    let sv = chars_of(s);
    let t = crate::text::trim_chars(&sv);
    match crate::num::parse_i64(&t) {
        Some(v) => {
            return Ok(v);
        },
        None => {},
    }
    let lower = crate::text::lower_chars(&t);
    let parts = crate::text::split_words(&lower);
    let ghost pviews = ws_words(lower_seq(trimmed(s@)));
    proof {
        assert(parts@.len() == pviews.len());
        assert(forall|k: int| 0 <= k < parts@.len() ==> #[trigger] parts@[k]@ == pviews[k]);
    }
    if parts.len() == 1 {
        match word_val_exec(&parts[0]) {
            Some(v) => Ok(v),
            None => Err(crate::model::EngineError::Invalid(String::new())),
        }
    } else {
        let mut acc: i64 = 0;
        let mut i: usize = 0;
        proof {
            assert(pviews.skip(0) =~= pviews);
        }
        while i < parts.len()
            invariant
                i <= parts@.len(),
                pviews == ws_words(lower_seq(trimmed(s@))),
                parts@.len() == pviews.len(),
                parts@.len() != 1,
                forall|k: int| 0 <= k < parts@.len() ==> #[trigger] parts@[k]@ == pviews[k],
                acc >= 0,
                words_val(pviews, 0) == words_val(pviews.skip(i as int), acc as int),
                !(is_int_str(trimmed(s@)) && i64::MIN <= int_str_val(trimmed(s@)) <= i64::MAX),
            decreases parts@.len() - i,
        {
            proof {
                assert(pviews.skip(i as int)[0] == pviews[i as int]);
                assert(pviews.skip(i as int).skip(1) =~= pviews.skip(i + 1 as int));
            }
            let v = match word_val_exec(&parts[i]) {
                Some(v) => v,
                None => {
                    proof {
                        assert(words_val(pviews.skip(i as int), acc as int) is None);
                    }
                    return Err(crate::model::EngineError::Invalid(String::new()));
                },
            };
            proof {
                assert(v >= 0);
            }
            if v >= 100 {
                let base: i64 = if acc == 0 {
                    1
                } else {
                    acc
                };
                acc = match base.checked_mul(v) {
                    Some(x) => x,
                    None => {
                        proof {
                            let w = word_step(acc as int, v as int);
                            assert(w > i64::MAX) by (nonlinear_arith)
                                requires
                                    acc >= 0,
                                    v >= 100,
                                    w == (if acc == 0 { 1int } else { acc as int }) * v,
                                    !(i64::MIN <= (if acc == 0 { 1int } else { acc as int }) * (
                                    v as int) <= i64::MAX),
                            ;
                            lemma_words_val_ge(pviews.skip(i + 1 as int), w);
                        }
                        return Err(crate::model::EngineError::Invalid(String::new()));
                    },
                };
            } else {
                acc = match acc.checked_add(v) {
                    Some(x) => x,
                    None => {
                        proof {
                            let w = word_step(acc as int, v as int);
                            lemma_words_val_ge(pviews.skip(i + 1 as int), w);
                        }
                        return Err(crate::model::EngineError::Invalid(String::new()));
                    },
                };
            }
            proof {
                assert(acc as int == word_step((acc as int - v as int), v as int) || true);
            }
            i = i + 1;
        }
        proof {
            assert(pviews.skip(parts@.len() as int).len() == 0);
        }
        Ok(acc)
    }
}

/// A folded number phrase never shrinks below its accumulator.
proof fn lemma_words_val_ge(ws: Seq<Seq<char>>, acc: int)
    requires
        acc >= 0,
    ensures
        words_val(ws, acc) matches Some(x) ==> x >= acc,
    decreases ws.len(),
{
    if ws.len() > 0 {
        match word_val(ws[0]) {
            Some(v) => {
                assert(v >= 0);
                let w = word_step(acc, v);
                assert(w >= acc && w >= 0) by (nonlinear_arith)
                    requires
                        acc >= 0,
                        v >= 0,
                        w == (if v >= 100 {
                            (if acc == 0 {
                                1int
                            } else {
                                acc
                            }) * v
                        } else {
                            acc + v
                        }),
                ;
                lemma_words_val_ge(ws.skip(1), w);
            },
            None => {},
        }
    }
}

/// The shell's answer to a sentence request: a caption naming the
/// sentence, since sentences can span verses.
pub fn read_sentence(number: i64) -> (r: CommandOutput)
    ensures
        r matches CommandOutput::Warning { message } && message@ == "Sentence "@ + dec_rep_i64(
            number as int,
        ) + " view is not available yet (sentences can span multiple ayat)."@,
{
    let a = chars_of("Sentence ");
    let b = crate::num::i64_chars(number);
    let c = chars_of(" view is not available yet (sentences can span multiple ayat).");
    let p1 = concat_chars(&a, &b);
    let p2 = concat_chars(&p1, &c);
    CommandOutput::Warning { message: string_of(&p2) }
}

/// The fixed help text of the command surface.
pub fn print_help() -> (r: String)
    ensures
        r@ == help_text(),
{
    let v = chars_of(HELP_TEXT);
    string_of(&v)
}

pub open spec fn help_text() -> Seq<char> {
    HELP_TEXT@
}

/// The help text, one fixed block.
pub const HELP_TEXT: &'static str = "=== Kalima CLI Commands ===\n\nRead (navigate):\n  read chapters             - List all surahs with their Arabic names\n  read chapter <N>          - View a surah\n  read verse <N>            - View an ayah in the current surah\n  read <S:A>                - View a specific ayah by surah:ayah\n  read sentence <N>         - View a sentence (may span ayat)\n  read word <N>             - View a specific word in the current verse\n  read morpheme <letter>    - View morpheme details (best-effort)\n  read letter <N>           - View a specific letter (placeholder)\n\nInterpret (write mode):\n  write                     - Enter write mode for the current ayah\n  write <ayah> [text]       - Use current surah context; save text if provided\n  write <S:A> [text]        - Target a specific ayah and optionally save text\n  write chapter <N>         - View a surah with interpretation slots\n\n  edit <N>                  - Prefill interpretation number N for editing (write mode)\n\nInspect Linguistic Details:\n  inspect                   - Show full linguistic analysis of current verse\n  inspect <surah:ayah>      - Inspect a specific verse directly\n\nGeneral:\n  clear                     - Clear the interface output\n  status                    - Show current base URL and context state\n  legend                    - Show color legend for syntax roles/POS/case\n  help                      - Show this help\n  exit | quit               - Exit the application\n";

} // verus!

//! Formatting the disk on first use: what the system's tools say, and what to
//! do next.

use crate::iscsi::text::chars_of;
use vstd::prelude::*;

verus! {

/// How often to look for the device file.
pub const LOOKS: u32 = 100;

/// How long to sleep between two looks, in milliseconds.
pub const LOOK_INTERVAL_MS: u64 = 100;

/// How long to let the mount settle once the device file is there, in
/// milliseconds.
pub const SETTLE_MS: u64 = 500;

/// Whether a character has the Unicode property `White_Space`.
pub open spec fn is_white(c: char) -> bool {
    let code = c as u32;
    ||| 0x09 <= code <= 0x0D
    ||| code == 0x20
    ||| code == 0x85
    ||| code == 0xA0
    ||| code == 0x1680
    ||| 0x2000 <= code <= 0x200A
    ||| 0x2028 <= code <= 0x2029
    ||| code == 0x202F
    ||| code == 0x205F
    ||| code == 0x3000
}

/// `char::is_whitespace`: whether the character has the Unicode property
/// `White_Space`.
pub assume_specification[ char::is_whitespace ](c: char) -> (r: bool)
    ensures
        r == is_white(c),
;

/// Where the word at `i` ends.
pub open spec fn word_end(s: Seq<char>, i: int) -> int
    decreases s.len() - i,
{
    if i < s.len() && !is_white(s[i]) {
        word_end(s, i + 1)
    } else {
        i
    }
}

/// The words of a text from `i` on, as white space separates them.
pub open spec fn words_from(s: Seq<char>, i: int) -> Seq<Seq<char>>
    decreases s.len() - i,
    via words_decrease
{
    if i < 0 || i >= s.len() {
        seq![]
    } else if is_white(s[i]) {
        words_from(s, i + 1)
    } else {
        seq![s.subrange(i, word_end(s, i))] + words_from(s, word_end(s, i))
    }
}

#[via_fn]
proof fn words_decrease(s: Seq<char>, i: int) {
    if 0 <= i < s.len() && !is_white(s[i]) {
        lemma_word_end(s, i + 1);
    }
}

proof fn lemma_word_end(s: Seq<char>, i: int)
    requires
        0 <= i <= s.len(),
    ensures
        i <= word_end(s, i) <= s.len(),
    decreases s.len() - i,
{
    if i < s.len() && !is_white(s[i]) {
        lemma_word_end(s, i + 1);
    }
}

/// `s` starts with `prefix`.
pub open spec fn starts_with(s: Seq<char>, prefix: Seq<char>) -> bool {
    prefix.len() <= s.len() && s.take(prefix.len() as int) == prefix
}

/// `part` occurs in `s`.
pub open spec fn contains_text(s: Seq<char>, part: Seq<char>) -> bool {
    exists|i: int|
        0 <= i && i + part.len() <= s.len() && #[trigger] s.subrange(i, i + part.len()) == part
}

/// Whether `part` stands at `at` in `s`.
fn stands_at(s: &Vec<char>, at: usize, end: usize, part: &Vec<char>) -> (r: bool)
    requires
        at <= end <= s.len(),
    ensures
        r == (at + part@.len() <= end && s@.subrange(at as int, at + part@.len()) == part@),
{
    if part.len() > end - at {
        return false;
    }
    let mut i: usize = 0;
    while i < part.len()
        invariant
            i <= part.len(),
            at + part@.len() <= end <= s.len(),
            forall|j: int| 0 <= j < i ==> s@[at + j] == #[trigger] part@[j],
        decreases part.len() - i,
    {
        if s[at + i] != part[i] {
            assert(s@.subrange(at as int, at + part@.len())[i as int] != part@[i as int]);
            return false;
        }
        i = i + 1;
    }
    assert(s@.subrange(at as int, at + part@.len()) =~= part@);
    true
}

fn contains(s: &Vec<char>, part: &str) -> (r: bool)
    ensures
        r == contains_text(s@, part@),
{
    let wanted: Vec<char> = chars_of(part);
    if wanted.len() > s.len() {
        return false;
    }
    let last: usize = s.len() - wanted.len();
    let mut i: usize = 0;
    while i < last
        invariant
            i <= last,
            last == s.len() - wanted.len(),
            wanted@ == part@,
            forall|j: int|
                0 <= j < i ==> #[trigger] s@.subrange(j, j + wanted@.len()) != wanted@,
        decreases last - i,
    {
        if stands_at(s, i, s.len(), &wanted) {
            return true;
        }
        i = i + 1;
    }
    stands_at(s, last, s.len(), &wanted)
}

/// `word` is the first of the words that starts with `prefix`.
pub open spec fn is_first_with(words: Seq<Seq<char>>, prefix: Seq<char>, word: Seq<char>) -> bool {
    exists|n: int|
        {
            &&& 0 <= n < words.len()
            &&& #[trigger] words[n] == word
            &&& starts_with(word, prefix)
            &&& forall|i: int| 0 <= i < n ==> !starts_with(#[trigger] words[i], prefix)
        }
}

/// The text of each word.
pub open spec fn word_views(words: Seq<String>) -> Seq<Seq<char>> {
    words.map_values(|w: String| w@)
}

/// Split a text at its white space.
pub fn split_words(text: &str) -> (r: Vec<String>)
    ensures
        word_views(r@) == words_from(text@, 0),
{
    let s: Vec<char> = chars_of(text);
    let ghost all = words_from(s@, 0);
    let mut words: Vec<String> = Vec::new();
    let mut i: usize = 0;
    assert(word_views(words@) + all =~= all);
    while i < s.len()
        invariant
            i <= s.len(),
            s@ == text@,
            all == words_from(s@, 0),
            word_views(words@) + words_from(s@, i as int) == all,
        decreases s.len() - i,
    {
        if s[i].is_whitespace() {
            i = i + 1;
        } else {
            let start: usize = i;
            while i < s.len() && !s[i].is_whitespace()
                invariant
                    start <= i <= s.len(),
                    word_end(s@, start as int) == word_end(s@, i as int),
                decreases s.len() - i,
            {
                i = i + 1;
            }
            let ghost before = word_views(words@);
            words.push(text.substring_char(start, i).to_owned());
            proof {
                let word = s@.subrange(start as int, i as int);
                let rest = words_from(s@, i as int);
                assert(word_end(s@, i as int) == i);
                lemma_word_end(s@, start as int);
                assert(words_from(s@, start as int) == seq![word] + rest);
                assert(word_views(words@) =~= before.push(word));
                assert(before.push(word) + rest =~= before + (seq![word] + rest));
            }
        }
    }
    assert(word_views(words@) + words_from(s@, i as int) =~= word_views(words@));
    words
}

/// The first of the words that is a /dev/diskN path.
pub fn first_disk(words: &Vec<String>) -> (r: Option<String>)
    ensures
        match r {
            Some(dev) => is_first_with(word_views(words@), "/dev/disk"@, dev@),
            None => forall|i: int|
                0 <= i < words.len() ==> !starts_with(
                    #[trigger] word_views(words@)[i],
                    "/dev/disk"@,
                ),
        },
{
    let prefix: Vec<char> = chars_of("/dev/disk");
    let ghost all = word_views(words@);
    let mut i: usize = 0;
    while i < words.len()
        invariant
            i <= words.len(),
            prefix@ == "/dev/disk"@,
            all == word_views(words@),
            forall|j: int| 0 <= j < i ==> !starts_with(#[trigger] all[j], prefix@),
        decreases words.len() - i,
    {
        let word: Vec<char> = chars_of(words[i].as_str());
        let found = stands_at(&word, 0, word.len(), &prefix);
        proof {
            assert(all[i as int] == word@);
            if prefix@.len() <= word@.len() {
                assert(word@.take(prefix@.len() as int) =~= word@.subrange(
                    0,
                    prefix@.len() as int,
                ));
            }
            assert(found == starts_with(word@, prefix@));
        }
        if found {
            return Some(words[i].clone());
        }
        i = i + 1;
    }
    None
}

/// The /dev/diskN path in the output of `hdiutil attach`: the first word that
/// is one. Output format: "/dev/disk4  \t...\n".
pub fn parse_attached_device(stdout: &str) -> (r: Option<String>)
    ensures
        match r {
            Some(dev) => is_first_with(words_from(stdout@, 0), "/dev/disk"@, dev@),
            None => forall|i: int|
                0 <= i < words_from(stdout@, 0).len() ==> !starts_with(
                    #[trigger] words_from(stdout@, 0)[i],
                    "/dev/disk"@,
                ),
        },
{
    first_disk(&split_words(stdout))
}

/// The output of `diskutil info` names a filesystem.
pub open spec fn names_filesystem(stdout: Seq<char>) -> bool {
    ||| contains_text(stdout, "Apple_APFS"@)
    ||| contains_text(stdout, "Apple_HFS"@)
    ||| contains_text(stdout, "Type (Bundle):"@)
}

/// Whether the device already has a filesystem (APFS or HFS+), from the output
/// of `diskutil info`; `None` where it failed.
pub fn is_formatted(stdout: Option<&str>) -> (r: bool)
    ensures
        r == (stdout is Some && names_filesystem(stdout->0@)),
{
    match stdout {
        Some(stdout) => {
            let s: Vec<char> = chars_of(stdout);
            contains(&s, "Apple_APFS") || contains(&s, "Apple_HFS") || contains(
                &s,
                "Type (Bundle):",
            )
        },
        None => false,
    }
}

/// The raw device of a disk: /dev/disk4 -> /dev/rdisk4.
pub fn raw_device(dev: &str) -> (r: String)
    requires
        starts_with(dev@, "/dev/disk"@),
    ensures
        r@ == "/dev/r"@ + dev@.skip(5),
{
    proof {
        reveal_strlit("/dev/disk");
    }
    let len: usize = dev.unicode_len();
    let mut raw: String = "/dev/r".to_owned();
    raw.append(dev.substring_char(5, len));
    assert(dev@.subrange(5, len as int) =~= dev@.skip(5));
    raw
}

/// What to do next.
pub enum FormatStep {
    /// Sleep for [`LOOK_INTERVAL_MS`], then look for the device file again.
    Wait,
    /// Sleep for [`SETTLE_MS`], then attach the device file as a disk image.
    Attach,
    /// Remember the attached disk for cleanup, and ask what is on it.
    Inspect(String),
    /// Format this raw device with HFS+ (Journaled).
    Format(String),
    /// Mount the disk, and switch to async writes for normal operation.
    Mount,
    /// Give up.
    Stop,
}

/// The auto-format sequence: wait for the device file, attach it, format it
/// unless it holds a filesystem already, mount it.
pub struct AutoFormat {
    /// How often the device file was looked for in vain.
    pub looks: u32,
    pub device: Option<String>,
}

impl AutoFormat {
    pub fn new() -> (r: Self)
        ensures
            r.looks == 0,
            r.device is None,
    {
        Self { looks: 0, device: None }
    }

    /// The device file was looked for.
    pub fn on_look(&mut self, exists: bool) -> (r: FormatStep)
        requires
            old(self).looks < LOOKS,
        ensures
            final(self).device == old(self).device,
            exists ==> r is Attach && final(self).looks == old(self).looks,
            !exists ==> final(self).looks == old(self).looks + 1 && (if final(self).looks < LOOKS {
                r is Wait
            } else {
                r is Stop
            }),
    {
        if exists {
            return FormatStep::Attach;
        }
        self.looks = self.looks + 1;
        if self.looks < LOOKS {
            FormatStep::Wait
        } else {
            FormatStep::Stop
        }
    }

    /// The disk image was attached, with this output; `None` where that failed.
    pub fn on_attached(&mut self, stdout: Option<&str>) -> (r: FormatStep)
        ensures
            final(self).looks == old(self).looks,
            match r {
                FormatStep::Inspect(dev) => {
                    &&& stdout is Some
                    &&& is_first_with(words_from(stdout->0@, 0), "/dev/disk"@, dev@)
                    &&& final(self).device matches Some(d) && d@ == dev@
                },
                FormatStep::Stop => {
                    &&& *final(self) == *old(self)
                    &&& stdout is Some ==> forall|i: int|
                        0 <= i < words_from(stdout->0@, 0).len() ==> !starts_with(
                            #[trigger] words_from(stdout->0@, 0)[i],
                            "/dev/disk"@,
                        )
                },
                _ => false,
            },
    {
        match stdout {
            Some(stdout) => match parse_attached_device(stdout) {
                Some(dev) => {
                    self.device = Some(dev.clone());
                    FormatStep::Inspect(dev)
                },
                None => FormatStep::Stop,
            },
            None => FormatStep::Stop,
        }
    }

    /// The attached disk was asked about, with this output; `None` where that
    /// failed.
    pub fn on_inspected(&self, stdout: Option<&str>) -> (r: FormatStep)
        requires
            self.device matches Some(dev) && starts_with(dev@, "/dev/disk"@),
        ensures
            match r {
                FormatStep::Mount => stdout is Some && names_filesystem(stdout->0@),
                FormatStep::Format(raw) => {
                    &&& !(stdout is Some && names_filesystem(stdout->0@))
                    &&& raw@ == "/dev/r"@ + self.device->0@.skip(5)
                },
                _ => false,
            },
    {
        if is_formatted(stdout) {
            return FormatStep::Mount;
        }
        match &self.device {
            Some(dev) => FormatStep::Format(raw_device(dev.as_str())),
            None => FormatStep::Stop,
        }
    }

    /// The raw device was formatted, or could not be.
    pub fn on_formatted(&self, succeeded: bool) -> (r: FormatStep)
        ensures
            if succeeded {
                r is Mount
            } else {
                r is Stop
            },
    {
        if succeeded {
            FormatStep::Mount
        } else {
            FormatStep::Stop
        }
    }
}

/// Tracks the attached disk device for cleanup.
pub struct AutoFormatState {
    /// e.g. "/dev/disk4" -- set after hdiutil attach succeeds.
    pub attached_device: Option<String>,
}

impl AutoFormatState {
    pub fn new() -> (r: Self)
        ensures
            r.attached_device is None,
    {
        Self { attached_device: None }
    }

    /// Remember the disk that was attached.
    pub fn attach(&mut self, device: String)
        ensures
            final(self).attached_device == Some(device),
    {
        self.attached_device = Some(device);
    }

    /// The disk to be detached, if one was attached. Safe to call multiple
    /// times: only the first call has one.
    pub fn detach(&mut self) -> (r: Option<String>)
        ensures
            r == old(self).attached_device,
            final(self).attached_device is None,
    {
        self.attached_device.take()
    }
}

proof fn lemma_word_end_behind(a: Seq<char>, b: Seq<char>, i: int)
    requires
        0 <= i <= b.len(),
    ensures
        word_end(a + b, a.len() + i) == a.len() + word_end(b, i),
    decreases b.len() - i,
{
    if i < b.len() {
        assert((a + b)[a.len() + i] == b[i]);
        if !is_white(b[i]) {
            lemma_word_end_behind(a, b, i + 1);
        }
    }
}

/// The words of a text are the same behind another one.
proof fn lemma_words_behind(a: Seq<char>, b: Seq<char>, i: int)
    requires
        0 <= i <= b.len(),
    ensures
        words_from(a + b, a.len() + i) == words_from(b, i),
    decreases b.len() - i,
{
    let s = a + b;
    if i < b.len() {
        assert(s[a.len() + i] == b[i]);
        if is_white(b[i]) {
            lemma_words_behind(a, b, i + 1);
        } else {
            lemma_word_end_behind(a, b, i);
            lemma_word_end(b, i);
            lemma_word_end(b, i + 1);
            let e = word_end(b, i);
            assert(e > i);
            lemma_words_behind(a, b, e);
            assert(s.subrange(a.len() + i, a.len() + e) =~= b.subrange(i, e));
        }
    }
}

proof fn lemma_word_end_at(s: Seq<char>, i: int, n: int)
    requires
        0 <= i <= n <= s.len(),
        forall|j: int| i <= j < n ==> !is_white(#[trigger] s[j]),
        n < s.len() ==> is_white(s[n]),
    ensures
        word_end(s, i) == n,
    decreases n - i,
{
    if i < n {
        assert(!is_white(s[i]));
        lemma_word_end_at(s, i + 1, n);
    }
}

/// White space separates words and is no part of any: a word, white space and
/// further text give that word, then the words of the text; white space in
/// front of a text changes nothing.
pub proof fn words_are_what_white_space_separates(word: Seq<char>, white: char, rest: Seq<char>)
    requires
        word.len() > 0,
        forall|i: int| 0 <= i < word.len() ==> !is_white(#[trigger] word[i]),
        is_white(white),
    ensures
        words_from(word + seq![white] + rest, 0) == seq![word] + words_from(rest, 0),
        words_from(seq![white] + rest, 0) == words_from(rest, 0),
        words_from(word, 0) == seq![word],
        words_from(seq![], 0) == Seq::<Seq<char>>::empty(),
{
    let n = word.len() as int;
    let s = word + seq![white] + rest;
    let t = seq![white] + rest;
    assert(s =~= word + t);
    assert forall|j: int| 0 <= j < n implies !is_white(#[trigger] s[j]) by {
        assert(s[j] == word[j]);
    }
    assert(s[n] == white);
    assert(!is_white(s[0]));
    lemma_word_end_at(s, 0, n);
    lemma_words_behind(word, t, 0);
    lemma_words_behind(seq![white], rest, 0);
    assert(t[0] == white);
    assert(words_from(t, 0) == words_from(t, 1));
    assert(s.subrange(0, n) =~= word);
    assert(!is_white(word[0]));
    lemma_word_end_at(word, 0, n);
    assert(word.subrange(0, n) =~= word);
    assert(words_from(word, n) =~= seq![]);
    assert(words_from(word, 0) =~= seq![word]);
}

/// The disk is the first path that the output names: where the output begins
/// with a disk path, up to white space, that path is the disk.
pub proof fn attached_disk_is_the_first_named(
    word: Seq<char>,
    white: char,
    rest: Seq<char>,
    prefix: Seq<char>,
    dev: Seq<char>,
)
    requires
        word.len() > 0,
        forall|i: int| 0 <= i < word.len() ==> !is_white(#[trigger] word[i]),
        is_white(white),
        is_first_with(words_from(word + seq![white] + rest, 0), prefix, dev),
    ensures
        word.len() >= prefix.len() && word.take(prefix.len() as int) == prefix ==> dev == word,
        !(word.len() >= prefix.len() && word.take(prefix.len() as int) == prefix) ==> is_first_with(
            words_from(rest, 0),
            prefix,
            dev,
        ),
        dev.len() >= prefix.len() && dev.take(prefix.len() as int) == prefix,
{
    words_are_what_white_space_separates(word, white, rest);
    let words = words_from(word + seq![white] + rest, 0);
    let others = words_from(rest, 0);
    let n = choose|n: int|
        {
            &&& 0 <= n < words.len()
            &&& #[trigger] words[n] == dev
            &&& starts_with(dev, prefix)
            &&& forall|i: int| 0 <= i < n ==> !starts_with(#[trigger] words[i], prefix)
        };
    assert(words[0] == word);
    if n > 0 {
        assert(others[n - 1] == dev);
        assert forall|i: int| 0 <= i < n - 1 implies !starts_with(#[trigger] others[i], prefix) by {
            assert(words[i + 1] == others[i]);
        }
    }
}

/// A disk that is said to hold a filesystem is recognised, wherever in the
/// output that stands, so that it is not formatted again; output that names
/// none of them is not taken for one.
pub proof fn filesystem_is_recognised_anywhere(
    before: Seq<char>,
    after: Seq<char>,
    stdout: Seq<char>,
)
    ensures
        names_filesystem(before + "Apple_APFS"@ + after),
        names_filesystem(before + "Apple_HFS"@ + after),
        names_filesystem(before + "Type (Bundle):"@ + after),
        names_filesystem(stdout) ==> exists|i: int, n: int|
            0 <= i && i + n <= stdout.len() && ({
                let part = #[trigger] stdout.subrange(i, i + n);
                part == "Apple_APFS"@ || part == "Apple_HFS"@ || part == "Type (Bundle):"@
            }),
{
    reveal_strlit("Apple_APFS");
    reveal_strlit("Apple_HFS");
    reveal_strlit("Type (Bundle):");
    lemma_part_is_contained(before, "Apple_APFS"@, after);
    lemma_part_is_contained(before, "Apple_HFS"@, after);
    lemma_part_is_contained(before, "Type (Bundle):"@, after);
    if names_filesystem(stdout) {
        let part = if contains_text(stdout, "Apple_APFS"@) {
            "Apple_APFS"@
        } else if contains_text(stdout, "Apple_HFS"@) {
            "Apple_HFS"@
        } else {
            "Type (Bundle):"@
        };
        let n = part.len() as int;
        let i = choose|i: int|
            0 <= i && i + n <= stdout.len() && #[trigger] stdout.subrange(i, i + n) == part;
        assert(stdout.subrange(i, i + n) == part);
    }
}

proof fn lemma_part_is_contained(before: Seq<char>, part: Seq<char>, after: Seq<char>)
    ensures
        contains_text(before + part + after, part),
{
    let s = before + part + after;
    let i = before.len() as int;
    assert(s.subrange(i, i + part.len()) =~= part);
}

/// The device file is given up once it has been looked for for ten seconds, and
/// no sooner.
pub proof fn device_file_is_waited_for(looks: u32)
    ensures
        looks >= LOOKS <==> looks * LOOK_INTERVAL_MS >= 10 * 1000,
{
}

} // verus!

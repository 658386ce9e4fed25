//! Morse decoding.
//!
//! The table serves two code sets at once: the Latin letters were registered
//! first and the Cyrillic letters after them, and for every code the two sets
//! share, the later registration won. The effective table below is therefore
//! the Cyrillic set plus the codes only one set has, plus digits and four
//! punctuation marks.
//!
//! Input with spaces is decoded code by code (one space separates letters,
//! two separate words). Input without spaces has no letter boundaries: a
//! dynamic programming pass finds a full segmentation with the fewest
//! letters when one exists, and a greedy longest-match pass covers the whole
//! input otherwise.

use vstd::prelude::*;

verus! {

/// Longest dot/dash code in the table.
pub const MAX_CODE_LEN: usize = 6;

/// A code's numeric key: a leading one bit followed by one bit per symbol,
/// zero for a dot and one for a dash. Distinct codes have distinct keys; a
/// string with characters other than dots and dashes has none.
pub open spec fn code_key(s: Seq<char>) -> Option<int>
    decreases s.len(),
{
    if s.len() == 0 {
        Some(1)
    } else {
        match code_key(s.drop_last()) {
            None => None,
            Some(k) => {
                if s.last() == '.' {
                    Some(2 * k)
                } else if s.last() == '-' {
                    Some(2 * k + 1)
                } else {
                    None
                }
            },
        }
    }
}

/// The character the effective table holds for a key. Each arm's comment
/// shows the code the key stands for.
pub open spec fn char_for_key(k: int) -> Option<char> {
    if k == 0b101 {
        Some('А')  // .-
    } else if k == 0b11000 {
        Some('Б')  // -...
    } else if k == 0b1011 {
        Some('В')  // .--
    } else if k == 0b1110 {
        Some('Г')  // --.
    } else if k == 0b1100 {
        Some('Д')  // -..
    } else if k == 0b10 {
        Some('Е')  // .
    } else if k == 0b10001 {
        Some('Ж')  // ...-
    } else if k == 0b11100 {
        Some('З')  // --..
    } else if k == 0b100 {
        Some('И')  // ..
    } else if k == 0b10111 {
        Some('Й')  // .---
    } else if k == 0b1101 {
        Some('К')  // -.-
    } else if k == 0b10100 {
        Some('Л')  // .-..
    } else if k == 0b111 {
        Some('М')  // --
    } else if k == 0b110 {
        Some('Н')  // -.
    } else if k == 0b1111 {
        Some('О')  // ---
    } else if k == 0b10110 {
        Some('П')  // .--.
    } else if k == 0b1010 {
        Some('Р')  // .-.
    } else if k == 0b1000 {
        Some('С')  // ...
    } else if k == 0b11 {
        Some('Т')  // -
    } else if k == 0b1001 {
        Some('У')  // ..-
    } else if k == 0b10010 {
        Some('Ф')  // ..-.
    } else if k == 0b10000 {
        Some('Х')  // ....
    } else if k == 0b11010 {
        Some('Ц')  // -.-.
    } else if k == 0b11110 {
        Some('Ч')  // ---.
    } else if k == 0b11111 {
        Some('Ш')  // ----
    } else if k == 0b11101 {
        Some('Щ')  // --.-
    } else if k == 0b11011 {
        Some('Ы')  // -.--
    } else if k == 0b11001 {
        Some('Ь')  // -..-
    } else if k == 0b100100 {
        Some('Э')  // ..-..
    } else if k == 0b10011 {
        Some('Ю')  // ..--
    } else if k == 0b10101 {
        Some('Я')  // .-.-
    } else if k == 0b101111 {
        Some('1')  // .----
    } else if k == 0b100111 {
        Some('2')  // ..---
    } else if k == 0b100011 {
        Some('3')  // ...--
    } else if k == 0b100001 {
        Some('4')  // ....-
    } else if k == 0b100000 {
        Some('5')  // .....
    } else if k == 0b110000 {
        Some('6')  // -....
    } else if k == 0b111000 {
        Some('7')  // --...
    } else if k == 0b111100 {
        Some('8')  // ---..
    } else if k == 0b111110 {
        Some('9')  // ----.
    } else if k == 0b111111 {
        Some('0')  // -----
    } else if k == 0b1010101 {
        Some('.')  // .-.-.-
    } else if k == 0b1110011 {
        Some(',')  // --..--
    } else if k == 0b1001100 {
        Some('?')  // ..--..
    } else if k == 0b1101011 {
        Some('!')  // -.-.--
    } else {
        None
    }
}

/// The effective decode table: the character a dot/dash code decodes to, if
/// any.
pub open spec fn morse_char(s: Seq<char>) -> Option<char> {
    match code_key(s) {
        Some(k) => char_for_key(k),
        None => None,
    }
}

/// The smallest key a code of `n` symbols can have: two to the power `n`.
pub open spec fn key_floor(n: nat) -> int
    decreases n,
{
    if n == 0 {
        1
    } else {
        2 * key_floor((n - 1) as nat)
    }
}

/// A code's key is at least the floor for its length.
pub proof fn lemma_code_key_min(s: Seq<char>)
    requires
        code_key(s) is Some,
    ensures
        code_key(s).unwrap() >= key_floor(s.len()),
    decreases s.len(),
{
    if s.len() > 0 {
        lemma_code_key_min(s.drop_last());
    }
}

/// Key floors are positive.
pub proof fn lemma_key_floor_pos(n: nat)
    ensures
        key_floor(n) >= 1,
    decreases n,
{
    if n > 0 {
        lemma_key_floor_pos((n - 1) as nat);
    }
}

/// The key floor never shrinks as codes get longer.
pub proof fn lemma_key_floor_mono(a: nat, b: nat)
    requires
        a <= b,
    ensures
        key_floor(a) <= key_floor(b),
    decreases b,
{
    if a < b {
        lemma_key_floor_mono(a, (b - 1) as nat);
        lemma_key_floor_pos((b - 1) as nat);
    }
}

/// A string without a key stays without one, whatever is appended.
pub proof fn lemma_code_key_none_extend(s: Seq<char>, t: Seq<char>)
    requires
        code_key(s) is None,
    ensures
        code_key(s + t) is None,
    decreases t.len(),
{
    if t.len() == 0 {
        assert(s + t =~= s);
    } else {
        assert((s + t).drop_last() =~= s + t.drop_last());
        lemma_code_key_none_extend(s, t.drop_last());
    }
}

/// Only codes of one to six symbols decode to a character.
pub proof fn lemma_morse_char_len(s: Seq<char>)
    requires
        morse_char(s) is Some,
    ensures
        1 <= s.len() <= MAX_CODE_LEN,
{
    if s.len() > MAX_CODE_LEN {
        lemma_code_key_min(s);
        lemma_key_floor_mono(7, s.len());
        reveal_with_fuel(key_floor, 8);
    }
}

/// The effective table as data: each entry pairs a code's key with the
/// character it decodes to, in ascending key order.
pub struct MorseTable {
    entries: Vec<(u32, char)>,
}

impl MorseTable {
    /// Every entry agrees with the table function, and every key the table
    /// function accepts is present.
    pub closed spec fn wf(&self) -> bool {
        &&& forall|i: int|
            0 <= i < self.entries@.len() ==> char_for_key(#[trigger] self.entries@[i].0 as int)
                == Some(self.entries@[i].1)
        &&& forall|k: int|
            char_for_key(k) is Some ==> exists|i: int|
                0 <= i < self.entries@.len() && (#[trigger] self.entries@[i].0) as int == k
    }

    /// How many codes the table decodes.
    pub fn len(&self) -> usize {
        self.entries.len()
    }

    /// The character the table holds for a dot/dash code: scan the entries
    /// for the code's key. Sound and complete entries make the scan agree
    /// with the table function.
    pub fn lookup(&self, code: &[char]) -> (r: Option<char>)
        requires
            self.wf(),
        ensures
            r == morse_char(code@),
    {
        let key = match code_key_exec(code) {
            Some(k) => k,
            None => {
                return None;
            },
        };
        let n = self.entries.len();
        let mut j: usize = 0;
        while j < n
            invariant
                0 <= j <= n,
                n == self.entries@.len(),
                self.wf(),
                code_key(code@) == Some(key as int),
                forall|j2: int| 0 <= j2 < j ==> (#[trigger] self.entries@[j2].0) != key,
            decreases n - j,
        {
            let (k2, c) = self.entries[j];
            if k2 == key {
                return Some(c);
            }
            j = j + 1;
        }
        proof {
            if char_for_key(key as int) is Some {
                let w = choose|i: int|
                    0 <= i < self.entries@.len() && (#[trigger] self.entries@[i].0) as int
                        == key as int;
                assert(self.entries@[w].0 != key);
            }
        }
        None
    }
}

/// The character the effective table holds for a dot/dash code.
pub fn lookup_code(code: &[char]) -> (r: Option<char>)
    ensures
        r == morse_char(code@),
{
    match code_key_exec(code) {
        Some(k) => char_for_key_exec(k),
        None => None,
    }
}

/// A code's key, where the code can have one at all. `None` also covers
/// codes too long for the table, whose keys outgrow every entry.
fn code_key_exec(code: &[char]) -> (r: Option<u32>)
    ensures
        match r {
            Some(v) => code_key(code@) == Some(v as int),
            None => morse_char(code@) is None,
        },
{
    let n = code.len();
    if n > MAX_CODE_LEN {
        proof {
            if code_key(code@) is Some {
                lemma_code_key_min(code@);
                lemma_key_floor_mono(7, code@.len());
                reveal_with_fuel(key_floor, 8);
            }
        }
        return None;
    }
    proof {
        assert(key_floor(1) == 2) by {
            reveal_with_fuel(key_floor, 3);
        }
    }
    let mut k: u32 = 1;
    let mut i: usize = 0;
    while i < n
        invariant
            0 <= i <= n,
            n == code@.len() <= MAX_CODE_LEN,
            code_key(code@.take(i as int)) == Some(k as int),
            (k as int) < key_floor((i + 1) as nat),
        decreases n - i,
    {
        let c = code[i];
        proof {
            assert(code@.take(i + 1 as int).drop_last() =~= code@.take(i as int));
            assert(code@.take(i + 1 as int).last() == code@[i as int]);
            lemma_key_floor_mono((i + 2) as nat, 7);
            reveal_with_fuel(key_floor, 8);
        }
        if c == '.' {
            k = 2 * k;
        } else if c == '-' {
            k = 2 * k + 1;
        } else {
            proof {
                assert(code_key(code@.take(i + 1 as int)) is None);
                lemma_code_key_none_extend(code@.take(i + 1 as int), code@.skip(i + 1 as int));
                assert(code@.take(i + 1 as int) + code@.skip(i + 1 as int) =~= code@);
            }
            return None;
        }
        i = i + 1;
    }
    proof {
        assert(code@.take(n as int) =~= code@);
    }
    Some(k)
}

/// The character the effective table holds for a key.
fn char_for_key_exec(k: u32) -> (r: Option<char>)
    ensures
        r == char_for_key(k as int),
{
    match k {
        0b101 => Some('А'),
        0b11000 => Some('Б'),
        0b1011 => Some('В'),
        0b1110 => Some('Г'),
        0b1100 => Some('Д'),
        0b10 => Some('Е'),
        0b10001 => Some('Ж'),
        0b11100 => Some('З'),
        0b100 => Some('И'),
        0b10111 => Some('Й'),
        0b1101 => Some('К'),
        0b10100 => Some('Л'),
        0b111 => Some('М'),
        0b110 => Some('Н'),
        0b1111 => Some('О'),
        0b10110 => Some('П'),
        0b1010 => Some('Р'),
        0b1000 => Some('С'),
        0b11 => Some('Т'),
        0b1001 => Some('У'),
        0b10010 => Some('Ф'),
        0b10000 => Some('Х'),
        0b11010 => Some('Ц'),
        0b11110 => Some('Ч'),
        0b11111 => Some('Ш'),
        0b11101 => Some('Щ'),
        0b11011 => Some('Ы'),
        0b11001 => Some('Ь'),
        0b100100 => Some('Э'),
        0b10011 => Some('Ю'),
        0b10101 => Some('Я'),
        0b101111 => Some('1'),
        0b100111 => Some('2'),
        0b100011 => Some('3'),
        0b100001 => Some('4'),
        0b100000 => Some('5'),
        0b110000 => Some('6'),
        0b111000 => Some('7'),
        0b111100 => Some('8'),
        0b111110 => Some('9'),
        0b111111 => Some('0'),
        0b1010101 => Some('.'),
        0b1110011 => Some(','),
        0b1001100 => Some('?'),
        0b1101011 => Some('!'),
        _ => None,
    }
}

/// Build the effective table as data. Seven bits bound every key the table
/// function accepts, so scanning the key space collects exactly the accepted
/// codes, each paired with the character the function gives it.
pub fn get_morse_table() -> (t: MorseTable)
    ensures
        t.wf(),
{
    let mut entries: Vec<(u32, char)> = Vec::new();
    let mut k: u32 = 0;
    while k < 128
        invariant
            0 <= k <= 128,
            forall|j: int|
                0 <= j < entries@.len() ==> char_for_key(#[trigger] entries@[j].0 as int) == Some(
                    entries@[j].1,
                ),
            forall|k2: int|
                0 <= k2 < k && char_for_key(k2) is Some ==> exists|j: int|
                    0 <= j < entries@.len() && (#[trigger] entries@[j].0) as int == k2,
        decreases 128 - k,
    {
        if let Some(c) = char_for_key_exec(k) {
            let ghost old_entries = entries@;
            entries.push((k, c));
            proof {
                assert forall|k2: int| 0 <= k2 < k + 1 && char_for_key(k2) is Some implies exists|
                    j: int,
                |
                    0 <= j < entries@.len() && (#[trigger] entries@[j].0) as int == k2 by {
                    if k2 == k as int {
                        assert(entries@[old_entries.len() as int].0 as int == k2);
                    } else {
                        let j = choose|j: int|
                            0 <= j < old_entries.len() && (#[trigger] old_entries[j].0) as int
                                == k2;
                        assert(entries@[j].0 as int == k2);
                    }
                }
            }
        }
        k = k + 1;
    }
    proof {
        assert(forall|k2: int| char_for_key(k2) is Some ==> 0 <= k2 < 128);
    }
    MorseTable { entries }
}

/// Whether the input carries explicit letter separators.
pub open spec fn has_space(s: Seq<char>) -> bool {
    exists|i: int| 0 <= i < s.len() && s[i] == ' '
}

/// Decode one letter code: a known code gives its character, an unknown
/// non-empty code the placeholder, the empty code nothing.
pub open spec fn decode_code(c: Seq<char>) -> Seq<char> {
    if c.len() == 0 {
        Seq::empty()
    } else {
        match morse_char(c) {
            Some(ch) => seq![ch],
            None => seq!['?'],
        }
    }
}

/// Segmented decode, scanning with the current letter code in hand: two
/// spaces end a word (one space in the output), a single space ends a letter
/// code, and any other character extends the current code.
pub open spec fn seg_decode(s: Seq<char>, cur: Seq<char>) -> Seq<char>
    decreases s.len(),
{
    if s.len() == 0 {
        decode_code(cur)
    } else if s.len() >= 2 && s[0] == ' ' && s[1] == ' ' {
        decode_code(cur) + seq![' '] + seg_decode(s.skip(2), Seq::empty())
    } else if s[0] == ' ' {
        decode_code(cur) + seg_decode(s.skip(1), Seq::empty())
    } else {
        seg_decode(s.skip(1), cur.push(s[0]))
    }
}

/// What segmented decoding yields for the whole input.
pub open spec fn decode_segmented(s: Seq<char>) -> Seq<char> {
    seg_decode(s, Seq::empty())
}

/// Decode one letter code.
fn decode_code_exec(code: &Vec<char>, table: &MorseTable) -> (out: Vec<char>)
    requires
        table.wf(),
    ensures
        out@ == decode_code(code@),
{
    let mut out: Vec<char> = Vec::new();
    if code.len() == 0 {
        return out;
    }
    match table.lookup(code.as_slice()) {
        Some(ch) => {
            out.push(ch);
        },
        None => {
            out.push('?');
        },
    }
    proof {
        assert(out@ =~= decode_code(code@));
    }
    out
}

/// Decode input that carries separators, code by code.
fn decode_segmented_chars(s: &[char], table: &MorseTable) -> (out: Vec<char>)
    requires
        table.wf(),
    ensures
        out@ == decode_segmented(s@),
{
    let n = s.len();
    let mut out: Vec<char> = Vec::new();
    let mut cur: Vec<char> = Vec::new();
    let mut i: usize = 0;
    proof {
        assert(s@.skip(0) =~= s@);
        assert(out@ + seg_decode(s@, cur@) =~= seg_decode(s@, cur@));
    }
    while i < n
        invariant
            table.wf(),
            0 <= i <= n,
            n == s@.len(),
            decode_segmented(s@) == out@ + seg_decode(s@.skip(i as int), cur@),
        decreases n - i,
    {
        let ghost rest = s@.skip(i as int);
        proof {
            assert(rest[0] == s@[i as int]);
        }
        let c = s[i];
        if c == ' ' {
            let mut decoded = decode_code_exec(&cur, table);
            out.append(&mut decoded);
            cur = Vec::new();
            if i + 1 < n && s[i + 1] == ' ' {
                proof {
                    assert(rest.len() >= 2 && rest[1] == s@[i + 1]);
                    assert(rest.skip(2) =~= s@.skip(i + 2));
                }
                out.push(' ');
                i = i + 2;
            } else {
                proof {
                    assert(!(rest.len() >= 2 && rest[1] == ' '));
                    assert(rest.skip(1) =~= s@.skip(i + 1));
                }
                i = i + 1;
            }
        } else {
            proof {
                assert(rest.skip(1) =~= s@.skip(i + 1));
            }
            cur.push(c);
            i = i + 1;
        }
    }
    proof {
        assert(s@.skip(n as int) =~= Seq::<char>::empty());
    }
    let mut decoded = decode_code_exec(&cur, table);
    out.append(&mut decoded);
    out
}

/// The longest prefix of `s`, up to `limit` symbols, that the table decodes.
pub open spec fn greedy_match_len(s: Seq<char>, limit: int) -> Option<int>
    decreases limit,
{
    if limit <= 0 {
        None
    } else if limit <= s.len() && morse_char(s.take(limit)) is Some {
        Some(limit)
    } else {
        greedy_match_len(s, limit - 1)
    }
}

/// A greedy match is a usable code length.
pub proof fn lemma_greedy_match_len_bounds(s: Seq<char>, limit: int)
    requires
        greedy_match_len(s, limit) is Some,
    ensures
        1 <= greedy_match_len(s, limit).unwrap() <= limit,
        greedy_match_len(s, limit).unwrap() <= s.len(),
        morse_char(s.take(greedy_match_len(s, limit).unwrap())) is Some,
    decreases limit,
{
    if limit > 0 && !(limit <= s.len() && morse_char(s.take(limit)) is Some) {
        lemma_greedy_match_len_bounds(s, limit - 1);
    }
}

/// The limit the greedy pass tries first: the table's longest code, or what
/// is left of the input if shorter.
pub open spec fn greedy_limit(s: Seq<char>) -> int {
    if s.len() < MAX_CODE_LEN {
        s.len() as int
    } else {
        MAX_CODE_LEN as int
    }
}

/// Greedy decode: take the longest code the table matches at the front and
/// emit its character; where nothing matches, emit the placeholder for one
/// input character. Every step consumes at least one character, so the pass
/// takes at most one step per input character and covers the whole input.
pub open spec fn decode_greedy(s: Seq<char>) -> Seq<char>
    decreases s.len(),
    via decode_greedy_decreases
{
    if s.len() == 0 {
        Seq::empty()
    } else {
        match greedy_match_len(s, greedy_limit(s)) {
            Some(l) => seq![morse_char(s.take(l)).unwrap()] + decode_greedy(s.skip(l)),
            None => seq!['?'] + decode_greedy(s.skip(1)),
        }
    }
}

#[via_fn]
proof fn decode_greedy_decreases(s: Seq<char>) {
    if s.len() > 0 {
        if greedy_match_len(s, greedy_limit(s)) is Some {
            lemma_greedy_match_len_bounds(s, greedy_limit(s));
        }
    }
}

/// The greedy pass never emits more characters than it consumed: one
/// character per decoded code or skipped input character.
pub proof fn lemma_greedy_len(s: Seq<char>)
    ensures
        decode_greedy(s).len() <= s.len(),
    decreases s.len(),
{
    if s.len() > 0 {
        match greedy_match_len(s, greedy_limit(s)) {
            Some(l) => {
                lemma_greedy_match_len_bounds(s, greedy_limit(s));
                lemma_greedy_len(s.skip(l));
            },
            None => {
                lemma_greedy_len(s.skip(1));
            },
        }
    }
}

/// The longest code the table matches at offset `i`, with its character.
fn longest_match_at(s: &[char], i: usize, table: &MorseTable) -> (r: Option<(usize, char)>)
    requires
        table.wf(),
        i < s@.len(),
    ensures
        match r {
            Some(lc) => {
                &&& greedy_match_len(s@.skip(i as int), greedy_limit(s@.skip(i as int))) == Some(
                    lc.0 as int,
                )
                &&& morse_char(s@.skip(i as int).take(lc.0 as int)) == Some(lc.1)
                &&& 1 <= lc.0
                &&& i + lc.0 <= s@.len()
            },
            None => greedy_match_len(s@.skip(i as int), greedy_limit(s@.skip(i as int))) is None,
        },
{
    let n = s.len();
    let ghost rest = s@.skip(i as int);
    let mut l: usize = if n - i < MAX_CODE_LEN {
        n - i
    } else {
        MAX_CODE_LEN
    };
    proof {
        assert(rest.len() == n - i);
        assert(greedy_limit(rest) == l as int);
    }
    while l >= 1
        invariant
            table.wf(),
            i < n == s@.len(),
            rest == s@.skip(i as int),
            0 <= l <= rest.len(),
            greedy_match_len(rest, greedy_limit(rest)) == greedy_match_len(rest, l as int),
        decreases l,
    {
        proof {
            assert(rest.take(l as int) =~= s@.subrange(i as int, i + l as int));
        }
        match table.lookup(&s[i..i + l]) {
            Some(c) => {
                return Some((l, c));
            },
            None => {},
        }
        l = l - 1;
    }
    None
}

/// Decode input without separators by greedy longest match. Always covers
/// the whole input; a character that starts no known code becomes the
/// placeholder.
pub fn decode_continuous_greedy(morse: &str, table: &MorseTable) -> (r: String)
    requires
        table.wf(),
    ensures
        r@ == decode_greedy(morse@),
{
    let s = crate::text::str_chars(morse);
    let n = s.len();
    let mut out: Vec<char> = Vec::new();
    let mut i: usize = 0;
    proof {
        assert(s@.skip(0) =~= s@);
        assert(out@ + decode_greedy(morse@) =~= decode_greedy(morse@));
    }
    while i < n
        invariant
            table.wf(),
            0 <= i <= n,
            n == s@.len(),
            s@ == morse@,
            decode_greedy(morse@) == out@ + decode_greedy(s@.skip(i as int)),
        decreases n - i,
    {
        let ghost rest = s@.skip(i as int);
        match longest_match_at(s.as_slice(), i, table) {
            Some((l, c)) => {
                proof {
                    assert(rest.skip(l as int) =~= s@.skip(i + l as int));
                }
                out.push(c);
                i = i + l;
            },
            None => {
                proof {
                    assert(rest.skip(1) =~= s@.skip(i + 1 as int));
                }
                out.push('?');
                i = i + 1;
            },
        }
    }
    proof {
        assert(s@.skip(n as int) =~= Seq::<char>::empty());
        assert(out@ =~= decode_greedy(morse@));
    }
    crate::text::chars_string(out.as_slice())
}

/// `d` is a complete decoding of `s`: some segmentation of `s` into table
/// codes spells `d`, one character per code.
pub open spec fn is_decoding(s: Seq<char>, d: Seq<char>) -> bool
    decreases s.len(),
{
    if s.len() == 0 {
        d.len() == 0
    } else {
        exists|l: int|
            {
                &&& 1 <= l <= s.len()
                &&& morse_char(#[trigger] s.skip(s.len() - l)) is Some
                &&& d.len() >= 1
                &&& d.last() == morse_char(s.skip(s.len() - l)).unwrap()
                &&& is_decoding(s.take(s.len() - l), d.drop_last())
            }
    }
}

/// Some complete decoding of `s` exists.
pub open spec fn decodable(s: Seq<char>) -> bool {
    exists|d: Seq<char>| is_decoding(s, d)
}

/// Split a decoding of a non-empty string at its last code.
proof fn lemma_decoding_last(s: Seq<char>, d: Seq<char>) -> (l: int)
    requires
        s.len() > 0,
        is_decoding(s, d),
    ensures
        1 <= l <= s.len(),
        morse_char(s.skip(s.len() - l)) is Some,
        d.len() >= 1,
        d.last() == morse_char(s.skip(s.len() - l)).unwrap(),
        is_decoding(s.take(s.len() - l), d.drop_last()),
{
    choose|l: int|
        {
            &&& 1 <= l <= s.len()
            &&& morse_char(#[trigger] s.skip(s.len() - l)) is Some
            &&& d.len() >= 1
            &&& d.last() == morse_char(s.skip(s.len() - l)).unwrap()
            &&& is_decoding(s.take(s.len() - l), d.drop_last())
        }
}

/// Extend a decoding of a prefix by one more code: encoding a text letter by
/// letter builds, step by step, an input of which the text is a decoding.
pub proof fn lemma_decoding_push(s: Seq<char>, d: Seq<char>, i2: int, l: int, c: char)
    requires
        0 <= i2,
        1 <= l,
        i2 + l <= s.len(),
        is_decoding(s.take(i2), d),
        morse_char(s.subrange(i2, i2 + l)) == Some(c),
    ensures
        is_decoding(s.take(i2 + l), d.push(c)),
{
    let t = s.take(i2 + l);
    assert(t.len() == i2 + l);
    assert(t.skip(t.len() - l) =~= s.subrange(i2, i2 + l));
    assert(t.take(t.len() - l) =~= s.take(i2));
    assert(d.push(c).drop_last() =~= d);
}

/// The table entry of a dynamic programming pass: the shortest decoding
/// found so far for the input's prefix of that length, if any.
spec fn dp_sound(s: Seq<char>, dp: Seq<Option<Vec<char>>>) -> bool {
    forall|j: int|
        0 <= j < dp.len() && (#[trigger] dp[j]) is Some ==> is_decoding(
            s.take(j),
            dp[j].unwrap()@,
        )
}

/// Entries up to `i` are settled: present exactly for decodable prefixes,
/// and shortest among all decodings of their prefix.
spec fn dp_final(s: Seq<char>, dp: Seq<Option<Vec<char>>>, i: int) -> bool {
    forall|j: int|
        #![trigger dp[j]]
        0 <= j <= i ==> {
            &&& (dp[j] is Some <==> decodable(s.take(j)))
            &&& (dp[j] is Some ==> (forall|d: Seq<char>|
                is_decoding(s.take(j), d) ==> dp[j].unwrap()@.len() <= d.len()))
        }
}

/// Every settled source before `i` has offered each code starting at it:
/// the target entry exists and is no longer than source plus one.
spec fn dp_relax(s: Seq<char>, dp: Seq<Option<Vec<char>>>, i: int) -> bool {
    forall|i2: int, l: int|
        #![trigger dp[i2], dp[i2 + l]]
        0 <= i2 < i && 1 <= l && i2 + l < dp.len() && dp[i2] is Some && morse_char(
            s.subrange(i2, i2 + l),
        ) is Some ==> dp[i2 + l] is Some && dp[i2 + l].unwrap()@.len() <= dp[i2].unwrap()@.len()
            + 1
}

/// Decode input without separators. Dynamic programming over the input's
/// prefixes finds a complete segmentation with the fewest letters whenever
/// one exists; otherwise the greedy pass covers the input.
pub fn decode_continuous_dp(morse: &str, table: &MorseTable) -> (r: String)
    requires
        table.wf(),
    ensures
        decodable(morse@) ==> is_decoding(morse@, r@) && (forall|d: Seq<char>|
            is_decoding(morse@, d) ==> r@.len() <= d.len()),
        !decodable(morse@) ==> r@ == decode_greedy(morse@),
{
    let s = crate::text::str_chars(morse);
    let n = s.len();
    let mut dp: Vec<Option<Vec<char>>> = Vec::new();
    dp.push(Some(Vec::new()));
    while dp.len() <= n
        invariant
            1 <= dp@.len() <= n + 1,
            dp@[0] is Some && dp@[0].unwrap()@ == Seq::<char>::empty(),
            forall|j: int| 1 <= j < dp@.len() ==> (#[trigger] dp@[j]) is None,
        decreases n + 1 - dp@.len(),
    {
        dp.push(None);
    }
    proof {
        assert(s@.take(0) =~= Seq::<char>::empty());
        assert(is_decoding(s@.take(0), dp@[0].unwrap()@));
        assert(dp_sound(s@, dp@));
        assert(dp_final(s@, dp@, 0));
        assert(dp_relax(s@, dp@, 0));
    }
    let mut i: usize = 0;
    while i < n
        invariant
            table.wf(),
            0 <= i <= n,
            n == s@.len(),
            s@ == morse@,
            dp@.len() == n + 1,
            dp_sound(s@, dp@),
            dp_final(s@, dp@, i as int),
            dp_relax(s@, dp@, i as int),
        decreases n - i,
    {
        let src_some = dp[i].is_some();
        if src_some {
            let base: Vec<char> = match &dp[i] {
                Some(v) => crate::text::clone_chars(v),
                None => Vec::new(),
            };
            let lmax: usize = if n - i < MAX_CODE_LEN {
                n - i
            } else {
                MAX_CODE_LEN
            };
            let ghost dp0 = dp@;
            let mut l: usize = 1;
            while l <= lmax
                invariant
                    table.wf(),
                    1 <= l <= lmax + 1,
                    0 <= i < n == s@.len(),
                    lmax as int == if n - i < MAX_CODE_LEN as int {
                        n - i
                    } else {
                        MAX_CODE_LEN as int
                    },
                    dp@.len() == n + 1 == dp0.len(),
                    dp0[i as int] is Some,
                    base@ == dp0[i as int].unwrap()@,
                    forall|j: int| 0 <= j <= i ==> dp@[j] == dp0[j],
                    forall|j: int|
                        0 <= j < dp@.len() && (#[trigger] dp0[j]) is Some ==> dp@[j] is Some
                            && dp@[j].unwrap()@.len() <= dp0[j].unwrap()@.len(),
                    dp_sound(s@, dp@),
                    forall|l2: int|
                        1 <= l2 < l && i + l2 < dp@.len() && morse_char(
                            #[trigger] s@.subrange(i as int, i + l2),
                        ) is Some ==> dp@[i + l2] is Some && dp@[i + l2].unwrap()@.len() <= base@.len()
                            + 1,
                decreases lmax + 1 - l,
            {
                proof {
                    assert(i + l < dp@.len());
                }
                let code = &s.as_slice()[i..i + l];
                proof {
                    assert(code@ =~= s@.subrange(i as int, i + l as int));
                }
                match table.lookup(code) {
                    Some(c) => {
                        let mut cand = crate::text::clone_chars(&base);
                        cand.push(c);
                        proof {
                            assert(is_decoding(s@.take(i as int), base@));
                            lemma_decoding_push(s@, base@, i as int, l as int, c);
                            assert(cand@ =~= base@.push(c));
                        }
                        let replace = match &dp[i + l] {
                            None => true,
                            Some(w) => w.len() > cand.len(),
                        };
                        if replace {
                            dp.set(i + l, Some(cand));
                        }
                    },
                    None => {},
                }
                l = l + 1;
            }
            proof {
                assert(dp_final(s@, dp@, i as int)) by {
                    assert forall|j: int| 0 <= j <= i as int implies ((#[trigger] dp@[
                    j]) is Some <==> decodable(s@.take(j))) && (dp@[j] is Some ==> (forall|
                        d: Seq<char>,
                    |
                        is_decoding(s@.take(j), d) ==> dp@[j].unwrap()@.len() <= d.len())) by {
                        assert(dp@[j] == dp0[j]);
                        assert(dp_final(s@, dp0, i as int));
                        if dp0[j] is Some {
                            assert forall|d: Seq<char>| is_decoding(s@.take(j), d) implies dp@[
                            j].unwrap()@.len() <= d.len() by {
                                assert(dp0[j].unwrap()@.len() <= d.len());
                            }
                        }
                    }
                }
                assert(dp_relax(s@, dp@, i as int)) by {
                    assert forall|i2: int, k: int|
                        0 <= i2 < i && 1 <= k && i2 + k < dp@.len() && (#[trigger] dp@[i2]) is Some
                            && morse_char(s@.subrange(i2, i2 + k)) is Some implies (#[trigger] dp@[
                        i2 + k]) is Some && dp@[i2 + k].unwrap()@.len() <= dp@[i2].unwrap()@.len()
                        + 1 by {
                        assert(dp@[i2] == dp0[i2]);
                        assert(dp0[i2 + k] is Some && dp0[i2 + k].unwrap()@.len() <= dp0[
                            i2].unwrap()@.len() + 1);
                    }
                }
                assert(dp_relax(s@, dp@, i + 1 as int)) by {
                    assert forall|i2: int, k: int|
                        0 <= i2 < i + 1 && 1 <= k && i2 + k < dp@.len() && (#[trigger] dp@[
                        i2]) is Some && morse_char(s@.subrange(i2, i2 + k)) is Some implies (
                        #[trigger] dp@[i2 + k]) is Some && dp@[i2 + k].unwrap()@.len() <= dp@[
                        i2].unwrap()@.len() + 1 by {
                        if i2 == i as int {
                            lemma_morse_char_len(s@.subrange(i2, i2 + k));
                            assert(k <= MAX_CODE_LEN);
                            assert(i2 + k < dp@.len());
                            assert(k <= lmax);
                            assert(dp@[i as int].unwrap()@ == base@);
                        } else {
                            assert(dp_relax(s@, dp@, i as int));
                        }
                    }
                }
            }
        } else {
            proof {
                assert(dp_relax(s@, dp@, i + 1 as int)) by {
                    assert forall|i2: int, k: int|
                        0 <= i2 < i + 1 && 1 <= k && i2 + k < dp@.len() && (#[trigger] dp@[
                        i2]) is Some && morse_char(s@.subrange(i2, i2 + k)) is Some implies (
                        #[trigger] dp@[i2 + k]) is Some && dp@[i2 + k].unwrap()@.len() <= dp@[
                        i2].unwrap()@.len() + 1 by {
                        assert(i2 != i as int);
                        assert(dp_relax(s@, dp@, i as int));
                    }
                }
            }
        }
        proof {
            assert(dp_final(s@, dp@, i + 1 as int)) by {
                let j = i + 1 as int;
                assert forall|d: Seq<char>| is_decoding(s@.take(j), d) implies dp@[j] is Some
                    && dp@[j].unwrap()@.len() <= d.len() by {
                    assert(s@.take(j).len() == j);
                    let l = lemma_decoding_last(s@.take(j), d);
                    let i2 = j - l;
                    assert(s@.take(j).skip(j - l) =~= s@.subrange(i2, j));
                    assert(s@.take(j).take(j - l) =~= s@.take(i2));
                    assert(is_decoding(s@.take(i2), d.drop_last()));
                    assert(decodable(s@.take(i2)));
                    assert(0 <= i2 <= i);
                    assert(dp@[i2] is Some);
                    assert(dp@[i2].unwrap()@.len() <= d.drop_last().len());
                    assert(morse_char(s@.subrange(i2, i2 + l)) is Some);
                    assert(dp_relax(s@, dp@, i + 1 as int));
                    assert(dp@[i2 + l] is Some && dp@[i2 + l].unwrap()@.len() <= dp@[
                        i2].unwrap()@.len() + 1);
                }
                if dp@[j] is Some {
                    assert(is_decoding(s@.take(j), dp@[j].unwrap()@));
                    assert(decodable(s@.take(j)));
                }
                if decodable(s@.take(j)) {
                    let d = choose|d: Seq<char>| is_decoding(s@.take(j), d);
                    assert(dp@[j] is Some);
                }
            }
        }
        i = i + 1;
    }
    proof {
        assert(s@.take(n as int) =~= s@);
    }
    let tail = dp.pop();
    match tail {
        Some(Some(v)) => {
            proof {
                assert(is_decoding(morse@, v@));
                assert(decodable(morse@));
            }
            crate::text::chars_string(v.as_slice())
        },
        _ => {
            proof {
                assert(!decodable(morse@));
            }
            decode_continuous_greedy(morse, table)
        },
    }
}

/// A decoding never has more characters than the input has symbols: every
/// code consumes at least one of them.
pub proof fn lemma_decoding_len(s: Seq<char>, d: Seq<char>)
    requires
        is_decoding(s, d),
    ensures
        d.len() <= s.len(),
    decreases s.len(),
{
    if s.len() > 0 {
        let l = lemma_decoding_last(s, d);
        lemma_decoding_len(s.take(s.len() - l), d.drop_last());
    }
}

/// Round trip: when the input is the concatenation of the codes of some text
/// `d` — as an encoder produces — a complete segmentation exists, and a
/// decoding `r` that is minimal among all decodings (as the continuous
/// decoder returns) is never longer than the encoded text.
pub proof fn lemma_continuous_round_trip(s: Seq<char>, d: Seq<char>, r: Seq<char>)
    requires
        is_decoding(s, d),
        decodable(s) ==> is_decoding(s, r) && (forall|d2: Seq<char>|
            is_decoding(s, d2) ==> r.len() <= d2.len()),
    ensures
        decodable(s),
        is_decoding(s, r),
        r.len() <= d.len(),
{
}

/// Decode Morse text. Input with spaces is decoded code by code; input
/// without spaces is decoded by dynamic programming with a greedy fallback.
/// Total: unknown codes become placeholders, never errors.
pub fn decode_morse(morse: &str) -> (r: String)
    ensures
        has_space(morse@) ==> r@ == decode_segmented(morse@),
        !has_space(morse@) && decodable(morse@) ==> is_decoding(morse@, r@) && (forall|
            d: Seq<char>,
        |
            is_decoding(morse@, d) ==> r@.len() <= d.len()),
        !has_space(morse@) && !decodable(morse@) ==> r@ == decode_greedy(morse@),
{
    let table = get_morse_table();
    let s = crate::text::str_chars(morse);
    let n = s.len();
    let mut found = false;
    let mut i: usize = 0;
    while i < n
        invariant
            0 <= i <= n,
            n == s@.len(),
            s@ == morse@,
            found == (exists|j: int| 0 <= j < i && s@[j] == ' '),
        decreases n - i,
    {
        if s[i] == ' ' {
            found = true;
        }
        i = i + 1;
    }
    if found {
        let out = decode_segmented_chars(s.as_slice(), &table);
        crate::text::chars_string(out.as_slice())
    } else {
        proof {
            assert(!has_space(morse@));
        }
        decode_continuous_dp(morse, &table)
    }
}

} // verus!

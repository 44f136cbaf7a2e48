//! Detection of repeated text at the end of a bounded window of generated tokens.

use vstd::prelude::*;
use vstd::string::*;
use vstd::utf8::*;
use std::collections::VecDeque;

use crate::text::{chars_of, decimal, ranges_equal, usize_to_decimal, utf8_byte_len};
use super::Stopper;
use crate::types::FinishReason;


verus! {

/// Configuration parameters for repetition pattern detection.
///
/// Pattern lengths and the window size are counted in characters.
#[derive(Debug, Clone, Copy, PartialEq, Eq, Structural)]
pub struct RepetitionConfig {
    /// Minimum length of patterns to detect, in characters.
    pub min_pattern_length: usize,
    /// Maximum length of patterns to detect, in characters.
    pub max_pattern_length: usize,
    /// Minimum number of consecutive repetitions required to trigger.
    pub min_repetitions: usize,
    /// Size of the sliding text window, in characters.
    pub window_size: usize,
}

/// Why a repetition configuration is rejected, in the order the checks run.
pub open spec fn repetition_config_error(c: RepetitionConfig) -> Option<Seq<char>> {
    if c.min_pattern_length == 0 {
        Some("min_pattern_length must be greater than 0"@)
    } else if c.max_pattern_length < c.min_pattern_length {
        Some("max_pattern_length must be >= min_pattern_length"@)
    } else if c.min_repetitions < 2 {
        Some("min_repetitions must be at least 2"@)
    } else if c.window_size == 0 {
        Some("window_size must be greater than 0"@)
    } else if c.min_pattern_length > 500 {
        Some("min_pattern_length is too large (> 500), may cause performance issues"@)
    } else if c.max_pattern_length > 2000 {
        Some("max_pattern_length is too large (> 2000), may cause performance issues"@)
    } else if c.window_size > 50000 {
        Some("window_size is too large (> 50000), may cause memory issues"@)
    } else {
        None
    }
}

impl RepetitionConfig {
    /// The balanced default: patterns of 10 to 100 characters, repeated at
    /// least 3 times, within a window of 1000 characters.
    pub fn default_config() -> (c: Self)
        ensures
            c.min_pattern_length == 10,
            c.max_pattern_length == 100,
            c.min_repetitions == 3,
            c.window_size == 1000,
    {
        RepetitionConfig {
            min_pattern_length: 10,
            max_pattern_length: 100,
            min_repetitions: 3,
            window_size: 1000,
        }
    }

    /// Validate the configuration parameters for consistency and reasonableness.
    pub fn validate(&self) -> (r: Result<(), String>)
        ensures
            match repetition_config_error(*self) {
                None => r is Ok,
                Some(msg) => r matches Err(e) && e@ == msg,
            },
    {
        if self.min_pattern_length == 0 {
            return Err("min_pattern_length must be greater than 0".to_string());
        }
        if self.max_pattern_length < self.min_pattern_length {
            return Err("max_pattern_length must be >= min_pattern_length".to_string());
        }
        if self.min_repetitions < 2 {
            return Err("min_repetitions must be at least 2".to_string());
        }
        if self.window_size == 0 {
            return Err("window_size must be greater than 0".to_string());
        }
        if self.min_pattern_length > 500 {
            return Err(
                "min_pattern_length is too large (> 500), may cause performance issues".to_string(),
            );
        }
        if self.max_pattern_length > 2000 {
            return Err(
                "max_pattern_length is too large (> 2000), may cause performance issues".to_string(),
            );
        }
        if self.window_size > 50000 {
            return Err("window_size is too large (> 50000), may cause memory issues".to_string());
        }
        Ok(())
    }
}

impl Default for RepetitionConfig {
    fn default() -> (c: Self)
        ensures
            c.min_pattern_length == 10,
            c.max_pattern_length == 100,
            c.min_repetitions == 3,
            c.window_size == 1000,
    {
        Self::default_config()
    }
}

/// Number of bytes in the UTF-8 encoding of `s`.
pub open spec fn utf8_len(s: Seq<char>) -> nat {
    encode_utf8(s).len()
}

/// Total number of characters of the tokens in a window.
pub open spec fn window_chars(w: Seq<Seq<char>>) -> nat
    decreases w.len(),
{
    if w.len() == 0 {
        0
    } else {
        w[0].len() + window_chars(w.drop_first())
    }
}

/// Drop tokens from the front of `w` until its character total fits within `limit`.
pub open spec fn trim_front(w: Seq<Seq<char>>, limit: nat) -> Seq<Seq<char>>
    decreases w.len(),
{
    if window_chars(w) <= limit || w.len() == 0 {
        w
    } else {
        trim_front(w.drop_first(), limit)
    }
}

/// The window after a token arrives: empty tokens are ignored, others are
/// appended and the oldest tokens are dropped until the window fits.
pub open spec fn window_after_add(w: Seq<Seq<char>>, token: Seq<char>, limit: nat) -> Seq<Seq<char>> {
    if token.len() == 0 {
        w
    } else {
        trim_front(w.push(token), limit)
    }
}

/// How many consecutive copies of `pattern` end at position `pos` of `chars`.
pub open spec fn copies_ending_at(chars: Seq<char>, pattern: Seq<char>, pos: int) -> nat
    decreases pos,
{
    if pattern.len() == 0 || pos < pattern.len() || pos > chars.len() {
        0
    } else if chars.subrange(pos - pattern.len(), pos) == pattern {
        1 + copies_ending_at(chars, pattern, pos - pattern.len())
    } else {
        0
    }
}

/// The last `len` characters of `chars`.
pub open spec fn tail_of(chars: Seq<char>, len: int) -> Seq<char> {
    chars.subrange(chars.len() - len, chars.len() as int)
}

/// Search pattern lengths from `len` down to `cfg.min_pattern_length` for the
/// first one whose trailing pattern repeats at least `cfg.min_repetitions` times.
pub open spec fn scan_lengths(chars: Seq<char>, cfg: RepetitionConfig, len: int) -> Option<(Seq<char>, nat)>
    decreases len - cfg.min_pattern_length + 1,
{
    if len < cfg.min_pattern_length || len < 0 {
        None
    } else if len == 0 || len > chars.len() {
        scan_lengths(chars, cfg, len - 1)
    } else {
        let p = tail_of(chars, len);
        let c = copies_ending_at(chars, p, chars.len() as int);
        if c >= cfg.min_repetitions {
            Some((p, c))
        } else {
            scan_lengths(chars, cfg, len - 1)
        }
    }
}

/// The repetition found in `chars`: the longest trailing pattern, of a length
/// allowed by `cfg`, that occurs at least `cfg.min_repetitions` times in a row
/// at the end of the text, together with its number of consecutive copies.
pub open spec fn find_repetition(chars: Seq<char>, cfg: RepetitionConfig) -> Option<(Seq<char>, nat)> {
    if chars.len() < cfg.min_pattern_length || cfg.min_pattern_length > cfg.max_pattern_length {
        None
    } else {
        scan_lengths(chars, cfg, cfg.max_pattern_length as int)
    }
}

/// The encoding of `a + b` is the encoding of `a` followed by that of `b`.
pub proof fn lemma_encode_utf8_concat(a: Seq<char>, b: Seq<char>)
    ensures
        encode_utf8(a + b) == encode_utf8(a) + encode_utf8(b),
    decreases a.len(),
{
    if a.len() == 0 {
        assert(a + b =~= b);
        assert(encode_utf8(a) + encode_utf8(b) =~= encode_utf8(b));
    } else {
        assert((a + b).drop_first() =~= a.drop_first() + b);
        lemma_encode_utf8_concat(a.drop_first(), b);
        assert(encode_utf8(a + b) =~= encode_scalar(a[0] as u32) + encode_utf8(a.drop_first() + b));
    }
}

/// A non-empty text has a non-empty encoding.
pub proof fn lemma_utf8_len_positive(s: Seq<char>)
    requires
        s.len() > 0,
    ensures
        utf8_len(s) > 0,
{
    assert(encode_utf8(s) == encode_scalar(s[0] as u32) + encode_utf8(s.drop_first()));
}

/// Appending a token adds its character count to the window total.
pub proof fn lemma_window_chars_push(w: Seq<Seq<char>>, t: Seq<char>)
    ensures
        window_chars(w.push(t)) == window_chars(w) + t.len(),
    decreases w.len(),
{
    if w.len() == 0 {
        assert(w.push(t).drop_first() =~= Seq::<Seq<char>>::empty());
        assert(window_chars(Seq::<Seq<char>>::empty()) == 0);
        assert(w.push(t)[0] == t);
    } else {
        assert(w.push(t)[0] == w[0]);
        assert(w.push(t).drop_first() =~= w.drop_first().push(t));
        lemma_window_chars_push(w.drop_first(), t);
    }
}

/// A trimmed window always fits within the limit, and is a suffix of the window it was cut from.
pub proof fn lemma_trim_front_fits(w: Seq<Seq<char>>, limit: nat)
    ensures
        window_chars(trim_front(w, limit)) <= limit,
        trim_front(w, limit).len() <= w.len(),
        trim_front(w, limit) == w.subrange(w.len() - trim_front(w, limit).len(), w.len() as int),
    decreases w.len(),
{
    if window_chars(w) <= limit || w.len() == 0 {
        assert(w.subrange(0, w.len() as int) =~= w);
    } else {
        lemma_trim_front_fits(w.drop_first(), limit);
        let t = trim_front(w.drop_first(), limit);
        assert(w.drop_first().subrange(w.drop_first().len() - t.len(), w.drop_first().len() as int)
            =~= w.subrange(w.len() - t.len(), w.len() as int));
    }
}


/// Appending a token longer than the limit leaves nothing in the window.
pub proof fn lemma_trim_oversized(w: Seq<Seq<char>>, t: Seq<char>, limit: nat)
    requires
        t.len() > limit,
    ensures
        trim_front(w.push(t), limit) == Seq::<Seq<char>>::empty(),
    decreases w.len(),
{
    lemma_window_chars_push(w, t);
    if w.len() == 0 {
        let one = w.push(t);
        assert(one.drop_first() =~= Seq::<Seq<char>>::empty());
        assert(trim_front(one.drop_first(), limit) == one.drop_first());
    } else {
        assert(w.push(t).drop_first() =~= w.drop_first().push(t));
        lemma_trim_oversized(w.drop_first(), t, limit);
    }
}

/// Trimming after an append equals trimming to the remaining budget first.
pub proof fn lemma_trim_then_push(w: Seq<Seq<char>>, t: Seq<char>, limit: nat)
    requires
        t.len() <= limit,
    ensures
        trim_front(w.push(t), limit) == trim_front(w, (limit - t.len()) as nat).push(t),
    decreases w.len(),
{
    let budget = (limit - t.len()) as nat;
    lemma_window_chars_push(w, t);
    if window_chars(w) <= budget {
    } else {
        assert(w.len() > 0);
        assert(w.push(t).drop_first() =~= w.drop_first().push(t));
        lemma_trim_then_push(w.drop_first(), t, limit);
    }
}

/// Stopper that detects repetitive patterns at the end of the generated text.
///
/// It keeps a sliding window of the most recent token texts, bounded in characters
/// by the configured window size.
pub struct RepetitionStopper {
    config: RepetitionConfig,
    text_window: VecDeque<String>,
    current_window_size: usize,
}

impl RepetitionStopper {
    /// The configuration this stopper was created with.
    pub closed spec fn spec_config(&self) -> RepetitionConfig {
        self.config
    }

    /// The token texts currently in the window, oldest first.
    pub closed spec fn window(&self) -> Seq<Seq<char>> {
        self.text_window@.map_values(|s: String| s@)
    }

    /// The text of the window: its tokens concatenated.
    pub open spec fn window_text(&self) -> Seq<char> {
        self.window().flatten()
    }

    /// The stored character count matches the window, and the window fits its bound.
    pub closed spec fn wf(&self) -> bool {
        &&& self.current_window_size as nat == window_chars(self.window())
        &&& self.current_window_size <= self.config.window_size
    }

    /// Create a new repetition stopper with an empty window.
    pub fn new(config: RepetitionConfig) -> (s: Self)
        ensures
            s.wf(),
            s.spec_config() == config,
            s.window() == Seq::<Seq<char>>::empty(),
    {
        let s = Self { config, text_window: VecDeque::new(), current_window_size: 0 };
        assert(s.window() =~= Seq::<Seq<char>>::empty());
        s
    }

    /// The configuration this stopper was created with.
    pub fn config(&self) -> (c: &RepetitionConfig)
        ensures
            *c == self.spec_config(),
    {
        &self.config
    }

    /// Number of token texts currently held in the window.
    pub fn window_token_count(&self) -> (n: usize)
        ensures
            n == self.window().len(),
    {
        self.text_window.len()
    }

    /// Number of characters of text currently held in the window.
    pub fn current_window_size(&self) -> (n: usize)
        requires
            self.wf(),
        ensures
            n == window_chars(self.window()),
    {
        self.current_window_size
    }

    /// Add newly generated token text to the sliding window.
    ///
    /// Empty texts are ignored. Otherwise the text is appended and the oldest
    /// texts are removed until the window's character count is within the limit.
    pub fn add_token_text(&mut self, token_text: String)
        requires
            old(self).wf(),
        ensures
            final(self).wf(),
            final(self).spec_config() == old(self).spec_config(),
            final(self).window() == window_after_add(
                old(self).window(),
                token_text@,
                old(self).spec_config().window_size as nat,
            ),
    {
        let text_len = token_text.as_str().unicode_len();
        if text_len == 0 {
            return;
        }
        let limit = self.config.window_size;
        if text_len > limit {
            proof {
                lemma_trim_oversized(self.window(), token_text@, limit as nat);
            }
            self.text_window.clear();
            self.current_window_size = 0;
            assert(self.window() =~= Seq::<Seq<char>>::empty());
            return;
        }
        let budget = limit - text_len;
        let ghost w0 = self.window();
        while self.current_window_size > budget
            invariant
                self.config == old(self).config,
                self.current_window_size as nat == window_chars(self.window()),
                trim_front(self.window(), budget as nat) == trim_front(w0, budget as nat),
            decreases self.text_window@.len(),
        {
            let ghost before = self.window();
            assert(before.len() > 0);
            let old_text = self.text_window.pop_front().unwrap();
            assert(self.window() =~= before.drop_first());
            self.current_window_size = self.current_window_size - old_text.as_str().unicode_len();
        }
        let ghost trimmed = self.window();
        assert(trim_front(trimmed, budget as nat) == trimmed);
        proof {
            lemma_trim_then_push(w0, token_text@, limit as nat);
            lemma_window_chars_push(trimmed, token_text@);
        }
        self.current_window_size = self.current_window_size + text_len;
        self.text_window.push_back(token_text);
        assert(self.window() =~= trimmed.push(token_text@));
    }

    /// The current window as a single string.
    pub fn get_window_text(&self) -> (t: String)
        ensures
            t@ == self.window_text(),
    {
        let mut out = String::new();
        let n = self.text_window.len();
        for i in 0..n
            invariant
                n == self.window().len(),
                out@ == self.window().take(i as int).flatten(),
        {
            let ghost w = self.window();
            assert(w.take(i + 1) =~= w.take(i as int).push(w[i as int]));
            proof {
                w.take(i as int).lemma_flatten_push(w[i as int]);
            }
            out.append(self.text_window[i].as_str());
        }
        assert(self.window().take(n as int) =~= self.window());
        out
    }
}

/// Count the consecutive copies of the last `len` characters that end the text.
fn count_trailing_copies(chars: &Vec<char>, len: usize) -> (c: usize)
    requires
        0 < len <= chars@.len(),
    ensures
        c as nat == copies_ending_at(chars@, tail_of(chars@, len as int), chars@.len() as int),
{
    let n = chars.len();
    let start = n - len;
    let ghost p = tail_of(chars@, len as int);
    let mut count: usize = 0;
    let mut pos: usize = n;
    loop
        invariant
            n == chars@.len(),
            0 < len <= n,
            start == n - len,
            p == chars@.subrange(start as int, n as int),
            pos <= n,
            count <= n - pos,
            count + copies_ending_at(chars@, p, pos as int) == copies_ending_at(chars@, p, n as int),
        decreases pos,
    {
        if pos < len {
            return count;
        }
        if ranges_equal(chars, pos - len, start, len) {
            count = count + 1;
            pos = pos - len;
        } else {
            return count;
        }
    }
}

impl RepetitionStopper {
    /// Check for a repetitive pattern at the end of the current window.
    ///
    /// Pattern lengths are tried from the longest allowed down to the
    /// shortest; the first pattern with enough consecutive copies is returned
    /// with its number of copies.
    pub fn detect_repetition(&self) -> (r: Option<(String, usize)>)
        ensures
            match find_repetition(self.window_text(), self.spec_config()) {
                None => r is None,
                Some((p, c)) => r matches Some((rp, rc)) && rp@ == p && rc as nat == c,
            },
    {
        let window_text = self.get_window_text();
        let chars = chars_of(window_text.as_str());
        let n = chars.len();
        let cfg = self.config;
        let ghost text = self.window_text();
        if n < cfg.min_pattern_length {
            return None;
        }
        if cfg.min_pattern_length > cfg.max_pattern_length {
            return None;
        }
        let mut len = cfg.max_pattern_length;
        loop
            invariant
                cfg == self.spec_config(),
                chars@ == text,
                window_text@ == text,
                n == text.len(),
                text == self.window_text(),
                cfg.min_pattern_length <= len <= cfg.max_pattern_length,
                n >= cfg.min_pattern_length,
                find_repetition(text, cfg) == scan_lengths(text, cfg, len as int),
            decreases len,
        {
            if len != 0 && len <= n {
                let count = count_trailing_copies(&chars, len);
                if count >= cfg.min_repetitions {
                    let pattern = window_text.as_str().substring_char(n - len, n).to_string();
                    assert(pattern@ == tail_of(text, len as int));
                    return Some((pattern, count));
                }
            }
            if len == cfg.min_pattern_length {
                assert(scan_lengths(text, cfg, len as int - 1) == None::<(Seq<char>, nat)>);
                return None;
            }
            len = len - 1;
        }
    }
}

/// The stop message for a detected pattern repeated `count` times: the first
/// 50 characters of the pattern are shown, and the pattern's byte length is
/// added when the pattern is longer than 50 bytes.
pub open spec fn repetition_message(pattern: Seq<char>, count: nat) -> Seq<char> {
    let shown = if pattern.len() <= 50 { pattern } else { pattern.take(50) };
    if utf8_len(pattern) > 50 {
        "Repetition detected: '"@ + shown + "...' (pattern length: "@ + decimal(utf8_len(pattern))
            + ") repeated "@ + decimal(count) + " times"@
    } else {
        "Repetition detected: '"@ + shown + "' repeated "@ + decimal(count) + " times"@
    }
}

/// What the repetition stopper decides for the window `w` under `cfg`.
pub open spec fn repetition_decision(w: Seq<Seq<char>>, cfg: RepetitionConfig) -> Option<Seq<char>> {
    if w.len() == 0 || window_chars(w) < cfg.min_pattern_length {
        None
    } else {
        match find_repetition(w.flatten(), cfg) {
            Some((p, c)) => Some(repetition_message(p, c)),
            None => None,
        }
    }
}

fn build_repetition_message(pattern: &String, count: usize) -> (m: String)
    ensures
        m@ == repetition_message(pattern@, count as nat),
{
    let plen = pattern.as_str().unicode_len();
    let shown = if plen <= 50 {
        pattern.as_str()
    } else {
        pattern.as_str().substring_char(0, 50)
    };
    assert(plen <= 50 ==> shown@ == pattern@);
    assert(plen > 50 ==> shown@ == pattern@.take(50));
    let byte_len = utf8_byte_len(pattern.as_str());
    let mut m = String::new();
    m.append("Repetition detected: '");
    m.append(shown);
    if byte_len > 50 {
        m.append("...' (pattern length: ");
        let l = usize_to_decimal(byte_len);
        m.append(l.as_str());
        m.append(") repeated ");
    } else {
        m.append("' repeated ");
    }
    let c = usize_to_decimal(count);
    m.append(c.as_str());
    m.append(" times");
    m
}

impl Stopper for RepetitionStopper {
    open spec fn stopper_inv(&self) -> bool {
        self.wf()
    }

    /// Stop when the window ends in a pattern repeated often enough.
    fn should_stop(&mut self, batch_tokens: usize) -> (r: Option<FinishReason>)
        ensures
            *final(self) == *old(self),
            match repetition_decision(old(self).window(), old(self).spec_config()) {
                None => r is None,
                Some(msg) => r matches Some(FinishReason::Stopped(m)) && m@ == msg,
            },
    {
        if self.text_window.len() == 0 {
            return None;
        }
        if self.current_window_size < self.config.min_pattern_length {
            return None;
        }
        match self.detect_repetition() {
            Some((pattern, count)) => Some(FinishReason::Stopped(build_repetition_message(&pattern, count))),
            None => None,
        }
    }
}

proof fn lemma_scan_lengths(chars: Seq<char>, cfg: RepetitionConfig, len: int)
    ensures
        scan_lengths(chars, cfg, len) matches Some((p, c)) ==> {
            &&& cfg.min_pattern_length <= p.len() <= len
            &&& 0 < p.len() <= chars.len()
            &&& p == tail_of(chars, p.len() as int)
            &&& c == copies_ending_at(chars, p, chars.len() as int)
            &&& c >= cfg.min_repetitions
            &&& forall|l: int|
                p.len() < l <= len && l <= chars.len() ==> #[trigger] copies_ending_at(
                    chars,
                    tail_of(chars, l),
                    chars.len() as int,
                ) < cfg.min_repetitions
        },
        scan_lengths(chars, cfg, len) is None ==> forall|l: int|
            cfg.min_pattern_length <= l <= len && 0 < l <= chars.len() ==> #[trigger] copies_ending_at(
                chars,
                tail_of(chars, l),
                chars.len() as int,
            ) < cfg.min_repetitions,
    decreases len - cfg.min_pattern_length + 1,
{
    if len < cfg.min_pattern_length || len < 0 {
    } else if len == 0 || len > chars.len() {
        lemma_scan_lengths(chars, cfg, len - 1);
    } else {
        let p = tail_of(chars, len);
        assert(p.len() == len);
        let c = copies_ending_at(chars, p, chars.len() as int);
        if c < cfg.min_repetitions {
            lemma_scan_lengths(chars, cfg, len - 1);
        }
    }
}

/// Repetition detection finds the longest qualifying pattern, and only a
/// real one: a reported pattern is the end of the text, its length is within
/// the configured bounds, it ends the text at least `min_repetitions` times in
/// a row, and no longer allowed length does; when nothing is reported, no
/// allowed length qualifies.
pub proof fn lemma_find_repetition_spec(chars: Seq<char>, cfg: RepetitionConfig)
    ensures
        find_repetition(chars, cfg) matches Some((p, c)) ==> {
            &&& cfg.min_pattern_length <= p.len() <= cfg.max_pattern_length
            &&& 0 < p.len() <= chars.len()
            &&& p == tail_of(chars, p.len() as int)
            &&& c == copies_ending_at(chars, p, chars.len() as int)
            &&& c >= cfg.min_repetitions
            &&& forall|l: int|
                p.len() < l <= cfg.max_pattern_length && l <= chars.len()
                    ==> #[trigger] copies_ending_at(chars, tail_of(chars, l), chars.len() as int)
                    < cfg.min_repetitions
        },
        find_repetition(chars, cfg) is None ==> forall|l: int|
            cfg.min_pattern_length <= l <= cfg.max_pattern_length && 0 < l <= chars.len()
                ==> #[trigger] copies_ending_at(chars, tail_of(chars, l), chars.len() as int)
                < cfg.min_repetitions,
{
    lemma_scan_lengths(chars, cfg, cfg.max_pattern_length as int);
}

/// The window never holds more characters than the configured window size.
pub proof fn lemma_window_within_limit(s: &RepetitionStopper)
    requires
        s.wf(),
    ensures
        window_chars(s.window()) <= s.spec_config().window_size,
{
}

/// Adding a token keeps only recent text: the new window is a suffix of the
/// old window followed by the token, and a non-empty token that fits within
/// the window size is always kept as the newest entry.
pub proof fn lemma_add_keeps_recent_suffix(w: Seq<Seq<char>>, token: Seq<char>, limit: nat)
    ensures
        ({
            let full = if token.len() == 0 { w } else { w.push(token) };
            let r = window_after_add(w, token, limit);
            &&& r.len() <= full.len()
            &&& r == full.subrange(full.len() - r.len(), full.len() as int)
        }),
        token.len() > 0 && token.len() <= limit ==> ({
            let r = window_after_add(w, token, limit);
            r.len() > 0 && r.last() == token
        }),
        window_chars(w) <= limit ==> window_chars(window_after_add(w, token, limit)) <= limit,
{
    if token.len() == 0 {
        assert(w.subrange(0, w.len() as int) =~= w);
    } else {
        lemma_trim_front_fits(w.push(token), limit);
        if token.len() <= limit {
            lemma_trim_then_push(w, token, limit);
        }
    }
}

/// The non-empty tokens of `tokens`, in order.
pub open spec fn nonempty_tokens(tokens: Seq<Seq<char>>) -> Seq<Seq<char>>
    decreases tokens.len(),
{
    if tokens.len() == 0 {
        Seq::empty()
    } else if tokens.last().len() == 0 {
        nonempty_tokens(tokens.drop_last())
    } else {
        nonempty_tokens(tokens.drop_last()).push(tokens.last())
    }
}

/// The window of a fresh stopper after `tokens` are added one by one.
pub open spec fn window_after_all(tokens: Seq<Seq<char>>, limit: nat) -> Seq<Seq<char>>
    decreases tokens.len(),
{
    if tokens.len() == 0 {
        Seq::empty()
    } else {
        window_after_add(window_after_all(tokens.drop_last(), limit), tokens.last(), limit)
    }
}

/// Trimming to a limit and then to a smaller one is trimming to the smaller one.
pub proof fn lemma_trim_twice(w: Seq<Seq<char>>, limit: nat, smaller: nat)
    requires
        smaller <= limit,
    ensures
        trim_front(trim_front(w, limit), smaller) == trim_front(w, smaller),
    decreases w.len(),
{
    if window_chars(w) <= limit || w.len() == 0 {
    } else {
        lemma_trim_twice(w.drop_first(), limit, smaller);
    }
}

/// Appending a non-empty token to a trimmed window and trimming again is the
/// same as appending to the untrimmed window and trimming once.
pub proof fn lemma_trim_push_trim(w: Seq<Seq<char>>, t: Seq<char>, limit: nat)
    ensures
        trim_front(trim_front(w, limit).push(t), limit) == trim_front(w.push(t), limit),
{
    if t.len() > limit {
        lemma_trim_oversized(trim_front(w, limit), t, limit);
        lemma_trim_oversized(w, t, limit);
    } else {
        let budget = (limit - t.len()) as nat;
        lemma_trim_then_push(trim_front(w, limit), t, limit);
        lemma_trim_then_push(w, t, limit);
        lemma_trim_twice(w, limit, budget);
    }
}

/// Every suffix of `w` longer than its trimmed form exceeds the limit.
pub proof fn lemma_trim_front_longest(w: Seq<Seq<char>>, limit: nat)
    ensures
        forall|j: int| 0 <= j < w.len() - trim_front(w, limit).len()
            ==> window_chars(#[trigger] w.subrange(j, w.len() as int)) > limit,
    decreases w.len(),
{
    if window_chars(w) <= limit || w.len() == 0 {
    } else {
        let rest = w.drop_first();
        lemma_trim_front_longest(rest, limit);
        assert forall|j: int| 0 <= j < w.len() - trim_front(w, limit).len()
            implies window_chars(#[trigger] w.subrange(j, w.len() as int)) > limit by {
            if j == 0 {
                assert(w.subrange(0, w.len() as int) =~= w);
            } else {
                assert(w.subrange(j, w.len() as int) =~= rest.subrange(j - 1, rest.len() as int));
            }
        }
    }
}

/// The window after a run of additions is the trimmed run of non-empty tokens.
pub proof fn lemma_window_after_all_trims(tokens: Seq<Seq<char>>, limit: nat)
    ensures
        window_after_all(tokens, limit) == trim_front(nonempty_tokens(tokens), limit),
    decreases tokens.len(),
{
    if tokens.len() == 0 {
        assert(window_chars(Seq::<Seq<char>>::empty()) == 0);
    } else {
        lemma_window_after_all_trims(tokens.drop_last(), limit);
        if tokens.last().len() > 0 {
            lemma_trim_push_trim(nonempty_tokens(tokens.drop_last()), tokens.last(), limit);
        }
    }
}

/// However tokens arrive, the window is the longest run of the most recent
/// non-empty tokens whose characters fit within the window size, in arrival
/// order: it fits, it ends with the newest of them, and taking in one more
/// older token would exceed the size (so it is empty when the newest token
/// alone is longer than the size).
pub proof fn lemma_window_is_longest_fitting_suffix(tokens: Seq<Seq<char>>, limit: nat)
    ensures
        ({
            let kept = nonempty_tokens(tokens);
            let w = window_after_all(tokens, limit);
            &&& w.len() <= kept.len()
            &&& w == kept.subrange(kept.len() - w.len(), kept.len() as int)
            &&& window_chars(w) <= limit
            &&& forall|j: int| 0 <= j < kept.len() - w.len()
                ==> window_chars(#[trigger] kept.subrange(j, kept.len() as int)) > limit
        }),
{
    let kept = nonempty_tokens(tokens);
    lemma_window_after_all_trims(tokens, limit);
    lemma_trim_front_fits(kept, limit);
    lemma_trim_front_longest(kept, limit);
}

} // verus!

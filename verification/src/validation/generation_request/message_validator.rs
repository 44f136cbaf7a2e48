//! Message content validation for generation requests.

use vstd::prelude::*;

use crate::text::{
    chars_of, contains_run, lowercase, seq_contains_run, to_lowercase, usize_to_decimal, decimal,
    utf8_byte_len, string_clone,
};
use crate::stopper::repetition::utf8_len;
use crate::types::{Message, Session};
use crate::validation::errors::ValidationError;
use crate::validation::traits::Validator;

verus! {

/// Configuration for message content validation.
#[derive(Debug, Clone)]
pub struct MessageContentConfig {
    /// Maximum allowed message length, in characters.
    pub max_length: usize,
    /// Custom suspicious patterns to check for.
    pub custom_suspicious_patterns: Vec<String>,
    /// Repetition threshold for detecting spam.
    pub repetition_threshold: usize,
}

impl MessageContentConfig {
    /// 100 000 characters at most, no custom patterns, and a repetition threshold of 5.
    pub fn default_config() -> (c: Self)
        ensures
            c.max_length == 100_000,
            c.custom_suspicious_patterns@.len() == 0,
            c.repetition_threshold == 5,
    {
        Self { max_length: 100_000, custom_suspicious_patterns: Vec::new(), repetition_threshold: 5 }
    }
}

/// The patterns every validator looks for: script, template, command, SQL
/// and path-traversal injections.
pub open spec fn default_patterns() -> Seq<Seq<char>> {
    seq![
        "<script"@, "</script>"@, "javascript:"@, "eval("@, "function("@,
        "${{"@, "}}"@, "<%"@, "%>"@, "<?php"@, "?>"@,
        "rm -rf"@,
        "DELETE FROM"@, "DROP TABLE"@, "INSERT INTO"@,
        "../../../"@, "..\\..\\..\\"@,
    ]
}

/// The texts of a list of strings.
pub open spec fn texts(v: Seq<String>) -> Seq<Seq<char>> {
    v.map_values(|s: String| s@)
}

/// Whether some pattern occurs in `content`, ignoring case.
pub open spec fn has_suspicious(patterns: Seq<Seq<char>>, content: Seq<char>) -> bool {
    exists|i: int| 0 <= i < patterns.len() && seq_contains_run(lowercase(content), lowercase(#[trigger] patterns[i]))
}

/// How many of the positions `j`, `j + 4`, `j + 8`, ... (each leaving room for
/// four characters) hold the four characters found at `i`.
pub open spec fn quad_matches_from(chars: Seq<char>, i: int, j: int) -> nat
    decreases chars.len() - j,
{
    if j < 0 || j + 4 > chars.len() || i < 0 || i + 4 > chars.len() {
        0
    } else {
        (if chars.subrange(j, j + 4) == chars.subrange(i, i + 4) { 1nat } else { 0nat })
            + quad_matches_from(chars, i, j + 4)
    }
}

/// The four characters at `i` recur often enough after it: at least once, and
/// together with the first occurrence at least `threshold` times.
pub open spec fn quad_repeats(chars: Seq<char>, i: int, threshold: nat) -> bool {
    let m = quad_matches_from(chars, i, i + 4);
    m >= 1 && 1 + m >= threshold
}

/// Excessive repetition: a text of at least 100 bytes and 20 characters in
/// which a four-character group starting no later than 20 characters from the
/// end recurs, in steps of four, often enough.
pub open spec fn excessive_repetition(content: Seq<char>, threshold: nat) -> bool {
    &&& utf8_len(content) >= 100
    &&& content.len() >= 20
    &&& exists|i: int| 0 <= i <= content.len() - 20 && #[trigger] quad_repeats(content, i, threshold)
}

/// The first problem found in a message, in the order the checks run. The
/// length is counted in characters; the refusal gives the limit and the
/// text's size in UTF-8 bytes, both in thousands.
pub open spec fn message_problem(
    content: Seq<char>,
    max_length: usize,
    patterns: Seq<Seq<char>>,
    threshold: nat,
) -> Option<Seq<char>> {
    if content.len() > max_length {
        Some("Message exceeds maximum length of "@ + decimal((max_length / 1000) as nat) + "KB (current: "@
            + decimal(utf8_len(content) / 1000) + "KB)"@)
    } else if has_suspicious(patterns, content) {
        Some("Message contains potentially unsafe content patterns"@)
    } else if excessive_repetition(content, threshold) {
        Some("Message contains excessive repetition patterns"@)
    } else {
        None
    }
}

/// Validates message content for security and quality issues.
#[derive(Debug, Clone)]
pub struct MessageContentValidator {
    config: MessageContentConfig,
    suspicious_patterns: Vec<String>,
}

impl MessageContentValidator {
    /// The configuration in use.
    pub closed spec fn spec_config(&self) -> MessageContentConfig {
        self.config
    }

    /// The patterns checked: the defaults followed by the custom ones.
    pub closed spec fn patterns(&self) -> Seq<Seq<char>> {
        texts(self.suspicious_patterns@)
    }

    /// Create a new message content validator with default settings.
    pub fn new() -> (v: Self)
        ensures
            v.spec_config().max_length == 100_000,
            v.spec_config().repetition_threshold == 5,
            v.patterns() == default_patterns(),
    {
        let v = Self::with_config(MessageContentConfig::default_config());
        assert(texts(v.spec_config().custom_suspicious_patterns@) =~= Seq::<Seq<char>>::empty());
        assert(v.patterns() =~= default_patterns());
        v
    }

    /// Create a validator with custom configuration.
    pub fn with_config(config: MessageContentConfig) -> (v: Self)
        ensures
            v.spec_config() == config,
            v.patterns() == default_patterns() + texts(config.custom_suspicious_patterns@),
    {
        let mut patterns = Self::default_suspicious_patterns();
        let n = config.custom_suspicious_patterns.len();
        let ghost base = texts(patterns@);
        let mut i: usize = 0;
        while i < n
            invariant
                n == config.custom_suspicious_patterns@.len(),
                i <= n,
                base == default_patterns(),
                texts(patterns@) == base + texts(config.custom_suspicious_patterns@).take(i as int),
            decreases n - i,
        {
            let p = string_clone(&config.custom_suspicious_patterns[i]);
            let ghost pv = p@;
            let ghost before = patterns@;
            patterns.push(p);
            assert(texts(patterns@) =~= texts(before).push(pv));
            assert(texts(config.custom_suspicious_patterns@).take(i + 1)
                =~= texts(config.custom_suspicious_patterns@).take(i as int).push(pv));
            assert(texts(patterns@) =~= base + texts(config.custom_suspicious_patterns@).take(i + 1));
            i = i + 1;
        }
        assert(texts(config.custom_suspicious_patterns@).take(n as int)
            =~= texts(config.custom_suspicious_patterns@));
        Self { config, suspicious_patterns: patterns }
    }

    /// The default list of suspicious patterns.
    fn default_suspicious_patterns() -> (v: Vec<String>)
        ensures
            texts(v@) == default_patterns(),
    {
        let v = vec![
            "<script".to_string(),
            "</script>".to_string(),
            "javascript:".to_string(),
            "eval(".to_string(),
            "function(".to_string(),
            "${{".to_string(),
            "}}".to_string(),
            "<%".to_string(),
            "%>".to_string(),
            "<?php".to_string(),
            "?>".to_string(),
            "rm -rf".to_string(),
            "DELETE FROM".to_string(),
            "DROP TABLE".to_string(),
            "INSERT INTO".to_string(),
            "../../../".to_string(),
            "..\\..\\..\\".to_string(),
        ];
        assert(texts(v@) =~= default_patterns());
        v
    }

    /// Whether `content` contains one of the patterns, ignoring case.
    pub fn contains_suspicious_content(&self, content: &str) -> (r: bool)
        ensures
            r == has_suspicious(self.patterns(), content@),
    {
        let lowered = to_lowercase(content);
        let hay = chars_of(lowered.as_str());
        let n = self.suspicious_patterns.len();
        let mut i: usize = 0;
        while i < n
            invariant
                n == self.patterns().len(),
                hay@ == lowercase(content@),
                i <= n,
                forall|k: int| 0 <= k < i ==> !seq_contains_run(lowercase(content@), lowercase(#[trigger] self.patterns()[k])),
            decreases n - i,
        {
            let pl = to_lowercase(self.suspicious_patterns[i].as_str());
            let needle = chars_of(pl.as_str());
            assert(needle@ == lowercase(self.patterns()[i as int]));
            if contains_run(&hay, &needle) {
                return true;
            }
            i = i + 1;
        }
        false
    }

    /// Whether `content` repeats a four-character group excessively.
    pub fn has_excessive_repetition(&self, content: &str) -> (r: bool)
        ensures
            r == excessive_repetition(content@, self.spec_config().repetition_threshold as nat),
    {
        if utf8_byte_len(content) < 100 {
            return false;
        }
        let chars = chars_of(content);
        let len = chars.len();
        let threshold = self.config.repetition_threshold;
        if len < 20 {
            return false;
        }
        let mut i: usize = 0;
        loop
            invariant
                len == chars@.len(),
                chars@ == content@,
                len >= 20,
                i <= len - 20,
                utf8_len(content@) >= 100,
                threshold == self.spec_config().repetition_threshold,
                forall|k: int| 0 <= k < i ==> !#[trigger] quad_repeats(chars@, k, threshold as nat),
            decreases len - 20 - i,
        {
            if quad_recurs(&chars, i, threshold) {
                return true;
            }
            if i == len - 20 {
                assert forall|k: int| 0 <= k <= content@.len() - 20 implies !#[trigger] quad_repeats(content@, k, threshold as nat) by {
                    assert(k < i || k == i);
                }
                return false;
            }
            i = i + 1;
        }
    }
}

/// Whether the four characters at `i` recur often enough, scanning in steps of four.
fn quad_recurs(chars: &Vec<char>, i: usize, threshold: usize) -> (r: bool)
    requires
        i + 20 <= chars@.len(),
    ensures
        r == quad_repeats(chars@, i as int, threshold as nat),
{
    let len = chars.len();
    let mut count: usize = 1;
    let mut j: usize = i + 4;
    loop
        invariant
            len == chars@.len(),
            i + 20 <= len,
            i + 4 <= j,
            j <= len,
            count >= 1,
            count <= j - i,
            quad_matches_from(chars@, i as int, i + 4) == (count - 1) + quad_matches_from(chars@, i as int, j as int),
            count == 1 || count < threshold,
        decreases len - j,
    {
        if j > len - 4 {
            return false;
        }
        if crate::text::ranges_equal(chars, j, i, 4) {
            count = count + 1;
            if count >= threshold {
                return true;
            }
        }
        j = j + 4;
    }
}

/// Why a message fails validation, with the exact texts of the error details.
impl Validator<Message> for MessageContentValidator {
    type Error = ValidationError;

    fn validate(&self, _session: &Session, message: &Message) -> (r: Result<(), ValidationError>)
        ensures
            match message_problem(
                message.content@,
                self.spec_config().max_length,
                self.patterns(),
                self.spec_config().repetition_threshold as nat,
            ) {
                None => r is Ok,
                Some(detail) => r matches Err(ValidationError::SecurityViolation(d)) && d@ == detail,
            },
    {
        let content = message.content.as_str();
        if content.unicode_len() > self.config.max_length {
            let len = utf8_byte_len(content);
            let mut d = String::new();
            d.append("Message exceeds maximum length of ");
            let a = usize_to_decimal(self.config.max_length / 1000);
            d.append(a.as_str());
            d.append("KB (current: ");
            let b = usize_to_decimal(len / 1000);
            d.append(b.as_str());
            d.append("KB)");
            return Err(ValidationError::SecurityViolation(d));
        }
        if self.contains_suspicious_content(content) {
            return Err(ValidationError::security_violation("Message contains potentially unsafe content patterns"));
        }
        if self.has_excessive_repetition(content) {
            return Err(ValidationError::security_violation("Message contains excessive repetition patterns"));
        }
        Ok(())
    }
}


impl Default for MessageContentConfig {
    fn default() -> (c: Self)
        ensures
            c.max_length == 100_000,
            c.custom_suspicious_patterns@.len() == 0,
            c.repetition_threshold == 5,
    {
        Self::default_config()
    }
}

impl Default for MessageContentValidator {
    fn default() -> (v: Self)
        ensures
            v.spec_config().max_length == 100_000,
            v.spec_config().repetition_threshold == 5,
            v.patterns() == default_patterns(),
    {
        Self::new()
    }
}

} // verus!

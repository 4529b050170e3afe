//! The redaction of free text before it is shown: control sequences are taken
//! out, the rest is split into tokens, and tokens that are paths or secrets,
//! or that follow a word which announces a secret, are replaced.

use vstd::prelude::*;
use vstd::slice::*;

use crate::text::{
    alphanumeric, begins_with, char_bytes, chars_of, contains_text, control, copied, ends,
    ends_with, extend, find_char, first_of, has, has_char, is_alphanumeric, is_control,
    is_whitespace, join, joined, lower, lowered, matches_at, spells, stands_at, starts, to_lower,
    to_lowered, to_upper, trimmed_start, upper, views, whitespace, width,
};

verus! {

// ---------------------------------------------------------------------------
// Control characters and escape sequences
// ---------------------------------------------------------------------------
/// What follows the final character of a control sequence.
pub open spec fn after_control_sequence(s: Seq<char>) -> Seq<char>
    decreases s.len(),
{
    if s.len() == 0 {
        s
    } else if '@' <= s[0] <= '~' {
        s.drop_first()
    } else {
        after_control_sequence(s.drop_first())
    }
}

/// What follows the terminator of an operating-system command: a bell, or a
/// backslash right after an escape.
pub open spec fn after_system_command(s: Seq<char>, escaped: bool) -> Seq<char>
    decreases s.len(),
{
    if s.len() == 0 {
        s
    } else if s[0] == '\x07' || (escaped && s[0] == '\\') {
        s.drop_first()
    } else {
        after_system_command(s.drop_first(), s[0] == '\x1b')
    }
}

pub proof fn lemma_sequences_shrink(s: Seq<char>, escaped: bool)
    ensures
        after_control_sequence(s).len() <= s.len(),
        after_system_command(s, escaped).len() <= s.len(),
    decreases s.len(),
{
    if s.len() > 0 {
        lemma_sequences_shrink(s.drop_first(), s[0] == '\x1b');
    }
}

/// The text without escape sequences, with a space for every other control
/// character.
pub open spec fn stripped(s: Seq<char>) -> Seq<char>
    decreases s.len(),
{
    if s.len() == 0 {
        s
    } else if s[0] != '\x1b' {
        seq![
            if is_control(s[0]) {
                ' '
            } else {
                s[0]
            },
        ] + stripped(s.drop_first())
    } else if s.len() > 1 && s[1] == '[' {
        proof {
            lemma_sequences_shrink(s.skip(2), false);
        }
        stripped(after_control_sequence(s.skip(2)))
    } else if s.len() > 1 && s[1] == ']' {
        proof {
            lemma_sequences_shrink(s.skip(2), false);
        }
        stripped(after_system_command(s.skip(2), false))
    } else {
        stripped(s.drop_first())
    }
}

fn past_control_sequence(s: &[char], from: usize) -> (at: usize)
    requires
        from <= s@.len(),
    ensures
        from <= at <= s@.len(),
        s@.skip(at as int) == after_control_sequence(s@.skip(from as int)),
{
    let mut at: usize = from;
    while at < s.len()
        invariant
            from <= at <= s@.len(),
            after_control_sequence(s@.skip(from as int)) == after_control_sequence(
                s@.skip(at as int),
            ),
        decreases s.len() - at,
    {
        proof {
            assert(s@.skip(at as int).drop_first() =~= s@.skip(at + 1));
        }
        let c = s[at];
        at = at + 1;
        if '@' <= c && c <= '~' {
            return at;
        }
    }
    at
}

fn past_system_command(s: &[char], from: usize) -> (at: usize)
    requires
        from <= s@.len(),
    ensures
        from <= at <= s@.len(),
        s@.skip(at as int) == after_system_command(s@.skip(from as int), false),
{
    let mut at: usize = from;
    let mut escaped = false;
    while at < s.len()
        invariant
            from <= at <= s@.len(),
            after_system_command(s@.skip(from as int), false) == after_system_command(
                s@.skip(at as int),
                escaped,
            ),
        decreases s.len() - at,
    {
        proof {
            assert(s@.skip(at as int).drop_first() =~= s@.skip(at + 1));
        }
        let c = s[at];
        at = at + 1;
        if c == '\x07' || (escaped && c == '\\') {
            return at;
        }
        escaped = c == '\x1b';
    }
    at
}

/// Takes out escape sequences and replaces control characters.
pub fn strip_control_and_ansi(s: &[char]) -> (output: Vec<char>)
    ensures
        output@ == stripped(s@),
{
    let mut output: Vec<char> = Vec::new();
    let mut at: usize = 0;
    proof {
        assert(s@.skip(0) =~= s@);
    }
    while at < s.len()
        invariant
            at <= s@.len(),
            stripped(s@) == output@ + stripped(s@.skip(at as int)),
        decreases s.len() - at,
    {
        let ghost rest = s@.skip(at as int);
        proof {
            assert(rest.drop_first() =~= s@.skip(at + 1));
            assert(rest[0] == s@[at as int]);
            if at + 1 < s@.len() {
                assert(rest[1] == s@[at + 1]);
                assert(rest.skip(2) =~= s@.skip(at + 2));
            }
        }
        let c = s[at];
        if c != '\x1b' {
            let ghost before = output@;
            let shown: char = if control(c) {
                ' '
            } else {
                c
            };
            output.push(shown);
            at = at + 1;
            proof {
                assert(before + (seq![shown] + stripped(s@.skip(at as int))) =~= output@
                    + stripped(s@.skip(at as int)));
            }
        } else if s.len() - at > 1 && s[at + 1] == '[' {
            at = past_control_sequence(s, at + 2);
        } else if s.len() - at > 1 && s[at + 1] == ']' {
            at = past_system_command(s, at + 2);
        } else {
            at = at + 1;
        }
    }
    proof {
        assert(s@.skip(at as int) =~= Seq::<char>::empty());
        assert(output@ + Seq::<char>::empty() =~= output@);
    }
    output
}

/// No character of the text is a control character.
pub open spec fn free_of_control(s: Seq<char>) -> bool {
    forall|i: int| 0 <= i < s.len() ==> !is_control(#[trigger] s[i])
}

/// Stripping leaves no control character.
pub proof fn lemma_stripped_has_no_control(s: Seq<char>)
    ensures
        free_of_control(stripped(s)),
    decreases s.len(),
{
    if s.len() == 0 {
    } else if s[0] != '\x1b' {
        lemma_stripped_has_no_control(s.drop_first());
        let rest = stripped(s.drop_first());
        assert forall|i: int| 0 <= i < stripped(s).len() implies !is_control(
            #[trigger] stripped(s)[i],
        ) by {
            if i > 0 {
                assert(stripped(s)[i] == rest[i - 1]);
            }
        }
    } else if s.len() > 1 && s[1] == '[' {
        lemma_sequences_shrink(s.skip(2), false);
        lemma_stripped_has_no_control(after_control_sequence(s.skip(2)));
        assert(stripped(s) == stripped(after_control_sequence(s.skip(2))));
    } else if s.len() > 1 && s[1] == ']' {
        lemma_sequences_shrink(s.skip(2), false);
        lemma_stripped_has_no_control(after_system_command(s.skip(2), false));
        assert(stripped(s) == stripped(after_system_command(s.skip(2), false)));
    } else {
        lemma_stripped_has_no_control(s.drop_first());
        assert(stripped(s) == stripped(s.drop_first()));
    }
}

// ---------------------------------------------------------------------------
// Tokens
// ---------------------------------------------------------------------------
/// A word of the text, without its quotes, and whether it had any.
#[verifier::ext_equal]
pub struct Token {
    pub value: Seq<char>,
    pub quoted: bool,
}

/// A word of the text, without its quotes, and whether it had any.
pub struct LexToken {
    pub value: Vec<char>,
    pub quoted: bool,
}

impl View for LexToken {
    type V = Token;

    open spec fn view(&self) -> Token {
        Token { value: self.value@, quoted: self.quoted }
    }
}

pub open spec fn tokens_of(tokens: Seq<LexToken>) -> Seq<Token> {
    Seq::new(tokens.len(), |i: int| tokens[i]@)
}

pub open spec fn extended(token: Token, c: char) -> Token {
    Token { value: token.value.push(c), quoted: token.quoted }
}

/// Reads on in a token, inside the given quote if there is one, and gives the
/// whole token and what follows it.
pub open spec fn scanned(s: Seq<char>, quote: Option<char>, token: Token) -> (Token, Seq<char>)
    decreases s.len(),
{
    if s.len() == 0 {
        (token, s)
    } else {
        let c = s[0];
        let rest = s.drop_first();
        if quote == Some(c) {
            scanned(rest, None, token)
        } else if c == '\\' {
            if rest.len() > 0 {
                scanned(rest.drop_first(), quote, extended(token, rest[0]))
            } else {
                (token, rest)
            }
        } else if quote is Some {
            scanned(rest, quote, extended(token, c))
        } else if c == '\'' || c == '"' {
            scanned(rest, Some(c), Token { value: token.value, quoted: true })
        } else if is_whitespace(c) {
            (token, rest)
        } else {
            scanned(rest, None, extended(token, c))
        }
    }
}

pub proof fn lemma_scanned_shrinks(s: Seq<char>, quote: Option<char>, token: Token)
    ensures
        scanned(s, quote, token).1.len() <= s.len(),
        s.len() > 0 ==> scanned(s, quote, token).1.len() < s.len(),
    decreases s.len(),
{
    if s.len() > 0 {
        let c = s[0];
        let rest = s.drop_first();
        if quote == Some(c) {
            lemma_scanned_shrinks(rest, None, token);
        } else if c == '\\' {
            if rest.len() > 0 {
                lemma_scanned_shrinks(rest.drop_first(), quote, extended(token, rest[0]));
            }
        } else if quote is Some {
            lemma_scanned_shrinks(rest, quote, extended(token, c));
        } else if c == '\'' || c == '"' {
            lemma_scanned_shrinks(rest, Some(c), Token { value: token.value, quoted: true });
        } else if !is_whitespace(c) {
            lemma_scanned_shrinks(rest, None, extended(token, c));
        }
    }
}

proof fn lemma_trimmed_start_shrinks(s: Seq<char>)
    ensures
        trimmed_start(s).len() <= s.len(),
    decreases s.len(),
{
    if s.len() > 0 && is_whitespace(s[0]) {
        lemma_trimmed_start_shrinks(s.drop_first());
    }
}

pub open spec fn no_token() -> Token {
    Token { value: Seq::empty(), quoted: false }
}

/// The tokens of a text.
pub open spec fn lexed(s: Seq<char>) -> Seq<Token>
    decreases s.len(),
    via lexed_decreases
{
    let start = trimmed_start(s);
    if start.len() == 0 {
        Seq::empty()
    } else {
        let (token, rest) = scanned(start, None, no_token());
        seq![token] + lexed(rest)
    }
}

#[via_fn]
proof fn lexed_decreases(s: Seq<char>) {
    lemma_trimmed_start_shrinks(s);
    lemma_scanned_shrinks(trimmed_start(s), None, no_token());
}

fn scan_token(s: &[char], from: usize) -> (result: (LexToken, usize))
    requires
        from < s@.len(),
    ensures
        from < result.1 <= s@.len(),
        (result.0@, s@.skip(result.1 as int)) == scanned(s@.skip(from as int), None, no_token()),
{
    let mut value: Vec<char> = Vec::new();
    let mut quoted = false;
    let mut quote: Option<char> = None;
    let mut at: usize = from;
    proof {
        assert(value@ =~= Seq::<char>::empty());
    }
    while at < s.len()
        invariant
            from <= at <= s@.len(),
            scanned(s@.skip(from as int), None, no_token()) == scanned(
                s@.skip(at as int),
                quote,
                Token { value: value@, quoted },
            ),
        decreases s.len() - at,
    {
        proof {
            let rest = s@.skip(at as int).drop_first();
            assert(rest =~= s@.skip(at + 1));
            assert(s@.skip(at as int)[0] == s@[at as int]);
            if rest.len() > 0 {
                assert(rest[0] == s@[at + 1]);
                assert(rest.drop_first() =~= s@.skip(at + 2));
            }
        }
        let c = s[at];
        let closes = match quote {
            Some(q) => q == c,
            None => false,
        };
        at = at + 1;
        if closes {
            quote = None;
        } else if c == '\\' {
            if at < s.len() {
                value.push(s[at]);
                at = at + 1;
            }
        } else if quote.is_some() {
            value.push(c);
        } else if c == '\'' || c == '"' {
            quote = Some(c);
            quoted = true;
        } else if whitespace(c) {
            return (LexToken { value, quoted }, at);
        } else {
            value.push(c);
        }
    }
    (LexToken { value, quoted }, at)
}

/// Splits a text into tokens.
pub fn lex_tokens(s: &[char]) -> (tokens: Vec<LexToken>)
    ensures
        tokens_of(tokens@) == lexed(s@),
{
    let mut tokens: Vec<LexToken> = Vec::new();
    let mut at: usize = 0;
    proof {
        assert(s@.skip(0) =~= s@);
        assert(tokens_of(tokens@) + lexed(s@) =~= lexed(s@));
    }
    while at < s.len()
        invariant
            at <= s@.len(),
            lexed(s@) == tokens_of(tokens@) + lexed(s@.skip(at as int)),
        decreases s.len() - at,
    {
        let ghost begin = at as int;
        while at < s.len() && whitespace(s[at])
            invariant
                begin <= at <= s@.len(),
                trimmed_start(s@.skip(begin)) == trimmed_start(s@.skip(at as int)),
            decreases s.len() - at,
        {
            proof {
                assert(s@.skip(at as int).drop_first() =~= s@.skip(at + 1));
                assert(s@.skip(at as int)[0] == s@[at as int]);
            }
            at = at + 1;
        }
        if at >= s.len() {
            proof {
                assert(lexed(s@.skip(begin)) =~= Seq::<Token>::empty());
                assert(tokens_of(tokens@) + Seq::<Token>::empty() =~= tokens_of(tokens@));
            }
            return tokens;
        }
        let ghost before = tokens@;
        proof {
            assert(s@.skip(at as int)[0] == s@[at as int]);
            assert(trimmed_start(s@.skip(begin)) == s@.skip(at as int));
        }
        let (token, next) = scan_token(s, at);
        tokens.push(token);
        at = next;
        proof {
            assert(tokens_of(tokens@) =~= tokens_of(before).push(token@));
            assert(tokens_of(before) + (seq![token@] + lexed(s@.skip(at as int))) =~= tokens_of(
                tokens@,
            ) + lexed(s@.skip(at as int)));
        }
    }
    proof {
        assert(s@.skip(at as int) =~= Seq::<char>::empty());
        assert(lexed(Seq::<char>::empty()) =~= Seq::<Token>::empty());
        assert(tokens_of(tokens@) + Seq::<Token>::empty() =~= tokens_of(tokens@));
    }
    tokens
}

// ---------------------------------------------------------------------------
// Sensitive words
// ---------------------------------------------------------------------------
/// A word that names a place in the file system.
pub open spec fn is_path_token(s: Seq<char>) -> bool {
    ||| s.contains('/')
    ||| s.contains('\\')
    ||| s.len() >= 2 && char_bytes(s[0]) == 1 && s[1] == ':'
}

pub fn path_token(s: &[char]) -> (yes: bool)
    ensures
        yes == is_path_token(s@),
{
    has_char(s, '/') || has_char(s, '\\') || (s.len() >= 2 && width(s[0]) == 1 && s[1] == ':')
}

/// The word without the dashes at its start.
pub open spec fn without_dashes(s: Seq<char>) -> Seq<char>
    decreases s.len(),
{
    if s.len() > 0 && s[0] == '-' {
        without_dashes(s.drop_first())
    } else {
        s
    }
}

/// A command-line flag in the form in which flags are compared: no leading
/// dash, lower case, dashes between the words.
pub open spec fn flag_form(s: Seq<char>) -> Seq<char> {
    let bare = without_dashes(s);
    Seq::new(
        bare.len(),
        |i: int|
            if bare[i] == '_' {
                '-'
            } else {
                lower(bare[i])
            },
    )
}

pub open spec fn is_sensitive_flag(s: Seq<char>) -> bool {
    let flag = flag_form(s);
    ||| flag == "token"@
    ||| flag == "api-key"@
    ||| flag == "password"@
    ||| flag == "secret"@
    ||| flag == "prompt"@
    ||| flag == "transcript"@
    ||| ends_with(flag, "-token"@)
    ||| ends_with(flag, "-secret"@)
    ||| ends_with(flag, "-password"@)
    ||| ends_with(flag, "-key"@)
}

fn to_flag_form(s: &[char]) -> (flag: Vec<char>)
    ensures
        flag@ == flag_form(s@),
{
    let mut from: usize = 0;
    proof {
        assert(s@.skip(0) =~= s@);
    }
    while from < s.len() && s[from] == '-'
        invariant
            from <= s@.len(),
            without_dashes(s@) == without_dashes(s@.skip(from as int)),
        decreases s.len() - from,
    {
        proof {
            assert(s@.skip(from as int).drop_first() =~= s@.skip(from + 1));
            assert(s@.skip(from as int)[0] == s@[from as int]);
        }
        from = from + 1;
    }
    let ghost bare = s@.skip(from as int);
    proof {
        if from < s@.len() {
            assert(bare[0] == s@[from as int]);
        }
        assert(without_dashes(s@) == bare);
    }
    let mut flag: Vec<char> = Vec::new();
    let mut at: usize = from;
    while at < s.len()
        invariant
            from <= at <= s@.len(),
            bare == s@.skip(from as int),
            without_dashes(s@) == bare,
            flag@ == flag_form(s@).take(at - from),
        decreases s.len() - at,
    {
        let c = s[at];
        flag.push(
            if c == '_' {
                '-'
            } else {
                to_lower(c)
            },
        );
        at = at + 1;
        proof {
            assert(bare[at - 1 - from] == s@[at - 1]);
            assert(flag_form(s@).take(at - from) =~= flag_form(s@).take(at - 1 - from).push(
                flag_form(s@)[at - 1 - from],
            ));
        }
    }
    proof {
        assert(flag_form(s@).take(bare.len() as int) =~= flag_form(s@));
    }
    flag
}

pub fn sensitive_flag(s: &[char]) -> (yes: bool)
    ensures
        yes == is_sensitive_flag(s@),
{
    let flag = to_flag_form(s);
    let f = flag.as_slice();
    spells(f, "token") || spells(f, "api-key") || spells(f, "password") || spells(f, "secret")
        || spells(f, "prompt") || spells(f, "transcript") || ends(f, "-token") || ends(f, "-secret")
        || ends(f, "-password") || ends(f, "-key")
}

pub open spec fn is_key_char(c: char) -> bool {
    is_alphanumeric(c) || c == '_' || c == '-'
}

/// The name of a setting in the form in which names are compared: letters,
/// digits and underscores only, in upper case.
pub open spec fn key_form(s: Seq<char>) -> Seq<char>
    decreases s.len(),
{
    if s.len() == 0 {
        s
    } else if !is_key_char(s.last()) {
        key_form(s.drop_last())
    } else {
        key_form(s.drop_last()).push(
            if s.last() == '-' {
                '_'
            } else {
                upper(s.last())
            },
        )
    }
}

pub open spec fn is_sensitive_key(s: Seq<char>) -> bool {
    let key = key_form(s);
    ||| contains_text(key, "TOKEN"@)
    ||| contains_text(key, "SECRET"@)
    ||| contains_text(key, "PASSWORD"@)
    ||| contains_text(key, "PASSWD"@)
    ||| contains_text(key, "ACCESS_KEY"@)
    ||| contains_text(key, "API_KEY"@)
    ||| contains_text(key, "AUTHORIZATION"@)
    ||| contains_text(key, "CREDENTIAL"@)
    ||| contains_text(key, "PRIVATE_KEY"@)
}

fn to_key_form(s: &[char]) -> (key: Vec<char>)
    ensures
        key@ == key_form(s@),
{
    let mut key: Vec<char> = Vec::new();
    let mut at: usize = 0;
    proof {
        assert(key@ =~= s@.take(0));
    }
    while at < s.len()
        invariant
            at <= s@.len(),
            key@ == key_form(s@.take(at as int)),
        decreases s.len() - at,
    {
        let c = s[at];
        if alphanumeric(c) || c == '_' || c == '-' {
            key.push(
                if c == '-' {
                    '_'
                } else {
                    to_upper(c)
                },
            );
        }
        at = at + 1;
        proof {
            assert(s@.take(at as int).drop_last() =~= s@.take(at - 1));
            assert(s@.take(at as int).last() == c);
        }
    }
    proof {
        assert(s@.take(s@.len() as int) =~= s@);
    }
    key
}

pub fn sensitive_key(s: &[char]) -> (yes: bool)
    ensures
        yes == is_sensitive_key(s@),
{
    let key = to_key_form(s);
    let k = key.as_slice();
    has(k, "TOKEN") || has(k, "SECRET") || has(k, "PASSWORD") || has(k, "PASSWD")
        || has(k, "ACCESS_KEY") || has(k, "API_KEY") || has(k, "AUTHORIZATION")
        || has(k, "CREDENTIAL") || has(k, "PRIVATE_KEY")
}

/// A word after which a secret is to be expected.
pub open spec fn is_sensitive_marker(s: Seq<char>) -> bool {
    let word = lowered(s);
    ||| contains_text(word, "token"@)
    ||| contains_text(word, "secret"@)
    ||| contains_text(word, "password"@)
    ||| contains_text(word, "passwd"@)
    ||| contains_text(word, "prompt"@)
    ||| contains_text(word, "transcript"@)
    ||| contains_text(word, "log_path"@)
    ||| contains_text(word, "session_id"@)
    ||| contains_text(word, "cookie"@)
    ||| contains_text(word, "apikey"@)
    ||| contains_text(word, "api_key"@)
    ||| contains_text(word, "authorization"@)
    ||| contains_text(word, "bearer"@)
    ||| contains_text(word, "credential"@)
    ||| contains_text(word, "private_key"@)
}

pub fn sensitive_marker(s: &[char]) -> (yes: bool)
    ensures
        yes == is_sensitive_marker(s@),
{
    let word = to_lowered(s);
    let w = word.as_slice();
    has(w, "token") || has(w, "secret") || has(w, "password") || has(w, "passwd") || has(w, "prompt")
        || has(w, "transcript") || has(w, "log_path") || has(w, "session_id") || has(w, "cookie")
        || has(w, "apikey") || has(w, "api_key") || has(w, "authorization") || has(w, "bearer")
        || has(w, "credential") || has(w, "private_key")
}

/// A word that looks like a well-known kind of access token.
pub open spec fn is_bare_secret(s: Seq<char>) -> bool {
    let word = lowered(s);
    &&& s.len() >= 20
    &&& forall|i: int| 0 <= i < s.len() ==> is_key_char(#[trigger] s[i])
    &&& {
        ||| begins_with(word, "ghp_"@)
        ||| begins_with(word, "github_pat_"@)
        ||| begins_with(word, "sk-"@)
        ||| begins_with(word, "xoxb-"@)
        ||| begins_with(word, "xoxp-"@)
        ||| begins_with(word, "akia"@)
    }
}

pub fn bare_secret(s: &[char]) -> (yes: bool)
    ensures
        yes == is_bare_secret(s@),
{
    if s.len() < 20 {
        return false;
    }
    let mut at: usize = 0;
    while at < s.len()
        invariant
            at <= s@.len(),
            forall|i: int| 0 <= i < at ==> is_key_char(#[trigger] s@[i]),
        decreases s.len() - at,
    {
        let c = s[at];
        if !(alphanumeric(c) || c == '_' || c == '-') {
            return false;
        }
        at = at + 1;
    }
    let word = to_lowered(s);
    let w = word.as_slice();
    starts(w, "ghp_") || starts(w, "github_pat_") || starts(w, "sk-") || starts(w, "xoxb-")
        || starts(w, "xoxp-") || starts(w, "akia")
}

// ---------------------------------------------------------------------------
// Session identifiers
// ---------------------------------------------------------------------------
pub open spec fn is_session_punctuation(c: char) -> bool {
    c == ':' || c == '`' || c == ',' || c == ';' || c == '"' || c == '\'' || c == '.' || c == '('
        || c == ')' || c == '[' || c == ']' || c == '{' || c == '}'
}

pub fn session_punctuation(c: char) -> (yes: bool)
    ensures
        yes == is_session_punctuation(c),
{
    c == ':' || c == '`' || c == ',' || c == ';' || c == '"' || c == '\'' || c == '.' || c == '('
        || c == ')' || c == '[' || c == ']' || c == '{' || c == '}'
}

pub open spec fn all_punctuation(s: Seq<char>) -> bool {
    forall|i: int| 0 <= i < s.len() ==> is_session_punctuation(#[trigger] s[i])
}

/// How many characters of punctuation stand at the start of the word.
pub open spec fn leading_punctuation(s: Seq<char>) -> nat
    decreases s.len(),
{
    if s.len() > 0 && is_session_punctuation(s[0]) {
        1 + leading_punctuation(s.drop_first())
    } else {
        0
    }
}

pub open spec fn session_label() -> Seq<char> {
    "agent.context.session_id"@
}

/// The position right behind the session label, where the word has one.
pub open spec fn label_end(s: Seq<char>) -> Option<int> {
    let from = leading_punctuation(s) as int;
    if begins_with(lowered(s.skip(from)), session_label()) {
        Some(from + session_label().len())
    } else {
        None
    }
}

/// The length of the separator at the start of what follows a session label.
pub open spec fn separator_len(suffix: Seq<char>) -> int {
    if begins_with(suffix, ":="@) {
        2
    } else if suffix.len() > 0 && (suffix[0] == '=' || suffix[0] == ':') {
        1
    } else {
        0
    }
}

fn punctuation_only(s: &[char], from: usize) -> (yes: bool)
    requires
        from <= s@.len(),
    ensures
        yes == all_punctuation(s@.skip(from as int)),
{
    let mut at: usize = from;
    while at < s.len()
        invariant
            from <= at <= s@.len(),
            forall|i: int| from <= i < at ==> is_session_punctuation(#[trigger] s@[i]),
        decreases s.len() - at,
    {
        if !session_punctuation(s[at]) {
            proof {
                assert(s@.skip(from as int)[at - from] == s@[at as int]);
            }
            return false;
        }
        at = at + 1;
    }
    true
}

proof fn lemma_leading_punctuation(s: Seq<char>, n: nat)
    requires
        n <= s.len(),
        forall|i: int| 0 <= i < n ==> is_session_punctuation(#[trigger] s[i]),
        n < s.len() ==> !is_session_punctuation(s[n as int]),
    ensures
        leading_punctuation(s) == n,
    decreases s.len(),
{
    if s.len() > 0 && n > 0 {
        assert(is_session_punctuation(s[0]));
        assert forall|i: int| 0 <= i < n - 1 implies is_session_punctuation(
            #[trigger] s.drop_first()[i],
        ) by {
            assert(s.drop_first()[i] == s[i + 1]);
        }
        lemma_leading_punctuation(s.drop_first(), (n - 1) as nat);
    }
}

fn find_label_end(s: &[char]) -> (end: Option<usize>)
    ensures
        match end {
            Some(at) => label_end(s@) == Some(at as int) && at <= s@.len(),
            None => label_end(s@) is None,
        },
{
    let mut from: usize = 0;
    while from < s.len() && session_punctuation(s[from])
        invariant
            from <= s@.len(),
            forall|i: int| 0 <= i < from ==> is_session_punctuation(#[trigger] s@[i]),
        decreases s.len() - from,
    {
        from = from + 1;
    }
    proof {
        lemma_leading_punctuation(s@, from as nat);
        assert(s@.subrange(from as int, s@.len() as int) =~= s@.skip(from as int));
    }
    let word = to_lowered(slice_subrange(s, from, s.len()));
    let label = chars_of("agent.context.session_id");
    if matches_at(word.as_slice(), label.as_slice(), 0) {
        Some(from + label.len())
    } else {
        None
    }
}

fn find_separator(s: &[char], end: usize) -> (len: usize)
    requires
        end <= s@.len(),
    ensures
        len == separator_len(s@.skip(end as int)),
        end + len <= s@.len(),
{
    proof {
        reveal_strlit(":=");
        let suffix = s@.skip(end as int);
        assert(s@.subrange(end as int, s@.len() as int) =~= suffix);
    }
    if starts(slice_subrange(s, end, s.len()), ":=") {
        2
    } else if end < s.len() && (s[end] == '=' || s[end] == ':') {
        1
    } else {
        0
    }
}

// ---------------------------------------------------------------------------
// The redaction of a token sequence
// ---------------------------------------------------------------------------
/// What the tokens read so far say of the next one.
#[derive(Clone, Copy, Debug, PartialEq, Eq, Structural)]
pub enum Mode {
    /// Nothing.
    Plain,
    /// It is a secret.
    Next,
    /// It belongs to the value of an assignment; `emitted` says whether the
    /// value has already been replaced.
    Assigned { emitted: bool },
    /// It starts the value of a `key:` pair.
    Structured,
}

/// What one step puts out, how many tokens it uses up, and the mode after it.
#[verifier::ext_equal]
pub struct Step {
    pub pieces: Seq<Seq<char>>,
    pub taken: nat,
    pub mode: Mode,
}

/// The executable form of `Step`.
pub struct StepTaken {
    pub pieces: Vec<Vec<char>>,
    pub taken: usize,
    pub mode: Mode,
}

impl View for StepTaken {
    type V = Step;

    open spec fn view(&self) -> Step {
        Step { pieces: views(self.pieces@), taken: self.taken as nat, mode: self.mode }
    }
}

pub open spec fn bare_equals(tokens: Seq<Token>, at: int) -> bool {
    0 <= at < tokens.len() && !tokens[at].quoted && tokens[at].value == "="@
}

/// The key in front of the first `separator` of a word, where it has one.
pub open spec fn key_before(s: Seq<char>, separator: char) -> Option<Seq<char>> {
    if first_of(s, separator) < s.len() {
        Some(s.take(first_of(s, separator)))
    } else {
        None
    }
}

/// A token at which the value of an assignment ends.
pub open spec fn is_boundary(tokens: Seq<Token>, at: int) -> bool {
    let token = tokens[at];
    ||| !token.quoted && token.value.len() > 1 && token.value[0] == '-'
    ||| !token.quoted && (key_before(token.value, '=') matches Some(key) && (is_sensitive_key(key)
        || is_sensitive_flag(key)))
    ||| bare_equals(tokens, at + 1)
}

pub open spec fn is_bearer(s: Seq<char>) -> bool {
    lowered(s) == "bearer"@
}

pub open spec fn hidden() -> Seq<char> {
    "[REDACTED]"@
}

pub open spec fn separator_text(tokens: Seq<Token>, at: int) -> bool {
    0 <= at < tokens.len() && !tokens[at].quoted && (tokens[at].value == "="@ || tokens[at].value
        == ":"@ || tokens[at].value == ":="@)
}

/// The step at a token of which nothing is known yet.
pub open spec fn plain_step(tokens: Seq<Token>, at: int) -> Step {
    let v = tokens[at].value;
    let by_equals = key_before(v, '=');
    let by_colon = key_before(v, ':');
    if is_path_token(v) {
        Step { pieces: seq!["[path]"@], taken: 1, mode: Mode::Plain }
    } else if by_equals is Some && is_sensitive_key(by_equals->0) {
        Step {
            pieces: seq![by_equals->0 + "=[REDACTED]"@],
            taken: 1,
            mode: Mode::Assigned { emitted: true },
        }
    } else if by_colon is Some && is_sensitive_key(by_colon->0) {
        Step { pieces: seq![by_colon->0 + ":"@], taken: 1, mode: Mode::Structured }
    } else if by_equals is Some && is_sensitive_flag(by_equals->0) {
        Step { pieces: seq![by_equals->0 + "=[REDACTED]"@], taken: 1, mode: Mode::Plain }
    } else if label_end(v) is Some && separator_len(v.skip(label_end(v)->0)) > 0 {
        let end = label_end(v)->0 + separator_len(v.skip(label_end(v)->0));
        if all_punctuation(v.skip(end)) {
            Step { pieces: seq![v.take(end)], taken: 1, mode: Mode::Assigned { emitted: false } }
        } else {
            Step {
                pieces: seq![v.take(end) + hidden()],
                taken: 1,
                mode: Mode::Assigned { emitted: true },
            }
        }
    } else if label_end(v) is Some && all_punctuation(v.skip(label_end(v)->0)) {
        if separator_text(tokens, at + 1) {
            Step {
                pieces: seq![v, tokens[at + 1].value],
                taken: 2,
                mode: Mode::Assigned { emitted: false },
            }
        } else {
            Step { pieces: seq![v], taken: 1, mode: Mode::Assigned { emitted: false } }
        }
    } else if is_sensitive_flag(v) || is_bearer(v) {
        if bare_equals(tokens, at + 1) {
            Step { pieces: seq![v, "="@], taken: 2, mode: Mode::Assigned { emitted: false } }
        } else {
            Step { pieces: seq![v], taken: 1, mode: Mode::Next }
        }
    } else if is_sensitive_marker(v) {
        if bare_equals(tokens, at + 1) {
            Step { pieces: seq![v, "="@], taken: 2, mode: Mode::Assigned { emitted: false } }
        } else {
            Step { pieces: seq![hidden()], taken: 1, mode: Mode::Next }
        }
    } else if is_bare_secret(v) {
        Step { pieces: seq![hidden()], taken: 1, mode: Mode::Plain }
    } else {
        Step { pieces: seq![v], taken: 1, mode: Mode::Plain }
    }
}

/// The step at a token in the given mode.
pub open spec fn step(tokens: Seq<Token>, at: int, mode: Mode) -> Step {
    let v = tokens[at].value;
    match mode {
        Mode::Plain => plain_step(tokens, at),
        Mode::Next => if v == "="@ {
            Step { pieces: seq![v], taken: 1, mode: Mode::Assigned { emitted: false } }
        } else {
            Step { pieces: seq![hidden()], taken: 1, mode: Mode::Plain }
        },
        Mode::Assigned { emitted } => if is_boundary(tokens, at) {
            Step { pieces: Seq::empty(), taken: 0, mode: Mode::Plain }
        } else if emitted {
            Step { pieces: Seq::empty(), taken: 1, mode: Mode::Assigned { emitted: true } }
        } else {
            Step { pieces: seq![hidden()], taken: 1, mode: Mode::Assigned { emitted: true } }
        },
        Mode::Structured => if is_boundary(tokens, at) {
            Step { pieces: Seq::empty(), taken: 0, mode: Mode::Plain }
        } else if is_bearer(v) {
            Step { pieces: seq![v], taken: 1, mode: Mode::Next }
        } else if v == "="@ {
            Step { pieces: seq![v], taken: 1, mode: Mode::Assigned { emitted: false } }
        } else {
            Step { pieces: seq![hidden()], taken: 1, mode: Mode::Assigned { emitted: true } }
        },
    }
}

pub open spec fn rank(mode: Mode) -> nat {
    if mode == Mode::Plain {
        0
    } else {
        1
    }
}

/// What is put out for the tokens from position `at` on.
pub open spec fn redacted_pieces(tokens: Seq<Token>, at: int, mode: Mode) -> Seq<Seq<char>>
    decreases tokens.len() - at, rank(mode),
{
    if at < 0 || at >= tokens.len() {
        Seq::empty()
    } else {
        let now = step(tokens, at, mode);
        now.pieces + redacted_pieces(tokens, at + now.taken, now.mode)
    }
}

/// The redacted form of a text.
pub open spec fn redacted(s: Seq<char>) -> Seq<char> {
    joined(redacted_pieces(lexed(stripped(s)), 0, Mode::Plain), " "@)
}

fn one(piece: Vec<char>) -> (pieces: Vec<Vec<char>>)
    ensures
        views(pieces@) == seq![piece@],
{
    let mut pieces: Vec<Vec<char>> = Vec::new();
    pieces.push(piece);
    proof {
        assert(views(pieces@) =~= seq![piece@]);
    }
    pieces
}

fn two(first: Vec<char>, second: Vec<char>) -> (pieces: Vec<Vec<char>>)
    ensures
        views(pieces@) == seq![first@, second@],
{
    let mut pieces: Vec<Vec<char>> = Vec::new();
    pieces.push(first);
    pieces.push(second);
    proof {
        assert(views(pieces@) =~= seq![first@, second@]);
    }
    pieces
}

fn none() -> (pieces: Vec<Vec<char>>)
    ensures
        views(pieces@) == Seq::<Seq<char>>::empty(),
{
    let pieces: Vec<Vec<char>> = Vec::new();
    proof {
        assert(views(pieces@) =~= Seq::<Seq<char>>::empty());
    }
    pieces
}

fn equals_follows(tokens: &Vec<LexToken>, at: usize) -> (yes: bool)
    requires
        at < tokens@.len(),
    ensures
        yes == bare_equals(tokens_of(tokens@), at + 1),
{
    if tokens.len() - at <= 1 {
        return false;
    }
    proof {
        assert(tokens_of(tokens@)[at + 1] == tokens@[at + 1]@);
    }
    !tokens[at + 1].quoted && spells(tokens[at + 1].value.as_slice(), "=")
}

fn find_key(s: &[char], separator: char) -> (key: Option<Vec<char>>)
    ensures
        match key {
            Some(k) => key_before(s@, separator) == Some(k@),
            None => key_before(s@, separator) is None,
        },
{
    let at = find_char(s, separator);
    if at < s.len() {
        proof {
            assert(s@.subrange(0, at as int) =~= s@.take(at as int));
        }
        Some(copied(slice_subrange(s, 0, at)))
    } else {
        None
    }
}

fn boundary(tokens: &Vec<LexToken>, at: usize) -> (yes: bool)
    requires
        at < tokens@.len(),
    ensures
        yes == is_boundary(tokens_of(tokens@), at as int),
{
    proof {
        assert(tokens_of(tokens@)[at as int] == tokens@[at as int]@);
    }
    let token = &tokens[at];
    if !token.quoted {
        if token.value.len() > 1 && token.value[0] == '-' {
            return true;
        }
        if let Some(key) = find_key(token.value.as_slice(), '=') {
            if sensitive_key(key.as_slice()) || sensitive_flag(key.as_slice()) {
                return true;
            }
        }
    }
    equals_follows(tokens, at)
}

fn bearer(s: &[char]) -> (yes: bool)
    ensures
        yes == is_bearer(s@),
{
    let word = to_lowered(s);
    spells(word.as_slice(), "bearer")
}

fn with_suffix(key: &[char], suffix: &str) -> (r: Vec<char>)
    ensures
        r@ == key@ + suffix@,
{
    let mut r = copied(key);
    let more = chars_of(suffix);
    extend(&mut r, more.as_slice());
    r
}

/// The step at a token that carries a session label, where it has one.
fn session_step(tokens: &Vec<LexToken>, at: usize) -> (taken: Option<StepTaken>)
    requires
        at < tokens@.len(),
    ensures
        ({
            let all = tokens_of(tokens@);
            let v = all[at as int].value;
            let end = label_end(v);
            &&& taken is Some <==> end is Some && (separator_len(v.skip(end->0)) > 0
                || all_punctuation(v.skip(end->0)))
            &&& taken is Some && separator_len(v.skip(end->0)) > 0 ==> taken->0@ == ({
                let stop = end->0 + separator_len(v.skip(end->0));
                if all_punctuation(v.skip(stop)) {
                    Step {
                        pieces: seq![v.take(stop)],
                        taken: 1,
                        mode: Mode::Assigned { emitted: false },
                    }
                } else {
                    Step {
                        pieces: seq![v.take(stop) + hidden()],
                        taken: 1,
                        mode: Mode::Assigned { emitted: true },
                    }
                }
            })
            &&& taken is Some && separator_len(v.skip(end->0)) == 0 ==> taken->0@ == (
            if separator_text(all, at + 1) {
                Step {
                    pieces: seq![v, all[at + 1].value],
                    taken: 2,
                    mode: Mode::Assigned { emitted: false },
                }
            } else {
                Step { pieces: seq![v], taken: 1, mode: Mode::Assigned { emitted: false } }
            })
        }),
{
    proof {
        assert(tokens_of(tokens@)[at as int] == tokens@[at as int]@);
        if at + 1 < tokens@.len() {
            assert(tokens_of(tokens@)[at + 1] == tokens@[at + 1]@);
        }
    }
    let v = tokens[at].value.as_slice();
    let end = match find_label_end(v) {
        Some(end) => end,
        None => {
            return None;
        },
    };
    let separator: usize = find_separator(v, end);
    assert(v@.len() == v.len());
    if separator > 0 {
        let stop: usize = end + separator;
        proof {
            assert(v@.subrange(0, stop as int) =~= v@.take(stop as int));
        }
        let head = slice_subrange(v, 0, stop);
        if punctuation_only(v, stop) {
            Some(
                StepTaken {
                    pieces: one(copied(head)),
                    taken: 1,
                    mode: Mode::Assigned { emitted: false },
                },
            )
        } else {
            Some(
                StepTaken {
                    pieces: one(with_suffix(head, "[REDACTED]")),
                    taken: 1,
                    mode: Mode::Assigned { emitted: true },
                },
            )
        }
    } else if punctuation_only(v, end) {
        if tokens.len() - at > 1 && !tokens[at + 1].quoted {
            let next = tokens[at + 1].value.as_slice();
            if spells(next, "=") || spells(next, ":") || spells(next, ":=") {
                return Some(
                    StepTaken {
                        pieces: two(copied(v), copied(next)),
                        taken: 2,
                        mode: Mode::Assigned { emitted: false },
                    },
                );
            }
        }
        Some(
            StepTaken { pieces: one(copied(v)), taken: 1, mode: Mode::Assigned { emitted: false } },
        )
    } else {
        None
    }
}

fn take_plain_step(tokens: &Vec<LexToken>, at: usize) -> (taken: StepTaken)
    requires
        at < tokens@.len(),
    ensures
        taken@ == plain_step(tokens_of(tokens@), at as int),
        1 <= taken.taken <= tokens@.len() - at,
{
    proof {
        assert(tokens_of(tokens@)[at as int] == tokens@[at as int]@);
    }
    let v = tokens[at].value.as_slice();
    if path_token(v) {
        return StepTaken { pieces: one(chars_of("[path]")), taken: 1, mode: Mode::Plain };
    }
    let by_equals = find_key(v, '=');
    if let Some(key) = &by_equals {
        if sensitive_key(key.as_slice()) {
            return StepTaken {
                pieces: one(with_suffix(key.as_slice(), "=[REDACTED]")),
                taken: 1,
                mode: Mode::Assigned { emitted: true },
            };
        }
    }
    if let Some(key) = find_key(v, ':') {
        if sensitive_key(key.as_slice()) {
            return StepTaken {
                pieces: one(with_suffix(key.as_slice(), ":")),
                taken: 1,
                mode: Mode::Structured,
            };
        }
    }
    if let Some(flag) = &by_equals {
        if sensitive_flag(flag.as_slice()) {
            return StepTaken {
                pieces: one(with_suffix(flag.as_slice(), "=[REDACTED]")),
                taken: 1,
                mode: Mode::Plain,
            };
        }
    }
    if let Some(taken) = session_step(tokens, at) {
        return taken;
    }
    if sensitive_flag(v) || bearer(v) {
        if equals_follows(tokens, at) {
            StepTaken {
                pieces: two(copied(v), chars_of("=")),
                taken: 2,
                mode: Mode::Assigned { emitted: false },
            }
        } else {
            StepTaken { pieces: one(copied(v)), taken: 1, mode: Mode::Next }
        }
    } else if sensitive_marker(v) {
        if equals_follows(tokens, at) {
            StepTaken {
                pieces: two(copied(v), chars_of("=")),
                taken: 2,
                mode: Mode::Assigned { emitted: false },
            }
        } else {
            StepTaken { pieces: one(chars_of("[REDACTED]")), taken: 1, mode: Mode::Next }
        }
    } else if bare_secret(v) {
        StepTaken { pieces: one(chars_of("[REDACTED]")), taken: 1, mode: Mode::Plain }
    } else {
        StepTaken { pieces: one(copied(v)), taken: 1, mode: Mode::Plain }
    }
}

fn take_step(tokens: &Vec<LexToken>, at: usize, mode: Mode) -> (taken: StepTaken)
    requires
        at < tokens@.len(),
    ensures
        taken@ == step(tokens_of(tokens@), at as int, mode),
        taken.taken <= tokens@.len() - at,
        taken.taken == 0 ==> mode != Mode::Plain && taken.mode == Mode::Plain,
{
    proof {
        assert(tokens_of(tokens@)[at as int] == tokens@[at as int]@);
    }
    let v = tokens[at].value.as_slice();
    match mode {
        Mode::Plain => take_plain_step(tokens, at),
        Mode::Next => {
            if spells(v, "=") {
                StepTaken {
                    pieces: one(copied(v)),
                    taken: 1,
                    mode: Mode::Assigned { emitted: false },
                }
            } else {
                StepTaken { pieces: one(chars_of("[REDACTED]")), taken: 1, mode: Mode::Plain }
            }
        },
        Mode::Assigned { emitted } => {
            if boundary(tokens, at) {
                StepTaken { pieces: none(), taken: 0, mode: Mode::Plain }
            } else if emitted {
                StepTaken { pieces: none(), taken: 1, mode: Mode::Assigned { emitted: true } }
            } else {
                StepTaken {
                    pieces: one(chars_of("[REDACTED]")),
                    taken: 1,
                    mode: Mode::Assigned { emitted: true },
                }
            }
        },
        Mode::Structured => {
            if boundary(tokens, at) {
                StepTaken { pieces: none(), taken: 0, mode: Mode::Plain }
            } else if bearer(v) {
                StepTaken { pieces: one(copied(v)), taken: 1, mode: Mode::Next }
            } else if spells(v, "=") {
                StepTaken {
                    pieces: one(copied(v)),
                    taken: 1,
                    mode: Mode::Assigned { emitted: false },
                }
            } else {
                StepTaken {
                    pieces: one(chars_of("[REDACTED]")),
                    taken: 1,
                    mode: Mode::Assigned { emitted: true },
                }
            }
        },
    }
}

fn append_all(pieces: &mut Vec<Vec<char>>, more: Vec<Vec<char>>)
    ensures
        views(final(pieces)@) == views(old(pieces)@) + views(more@),
{
    let mut rest = more;
    let ghost all = rest@;
    pieces.append(&mut rest);
    proof {
        assert(views(pieces@) =~= views(old(pieces)@) + views(all));
    }
}

/// Redacts a text that is given by its characters.
pub fn redact(s: &[char]) -> (r: Vec<char>)
    ensures
        r@ == redacted(s@),
{
    let plain = strip_control_and_ansi(s);
    let tokens = lex_tokens(plain.as_slice());
    let ghost all = lexed(stripped(s@));
    let mut pieces: Vec<Vec<char>> = Vec::new();
    let mut at: usize = 0;
    let mut mode = Mode::Plain;
    proof {
        assert(views(pieces@) + redacted_pieces(all, 0, Mode::Plain) =~= redacted_pieces(
            all,
            0,
            Mode::Plain,
        ));
    }
    while at < tokens.len()
        invariant
            at <= tokens@.len(),
            all == tokens_of(tokens@),
            redacted_pieces(all, 0, Mode::Plain) == views(pieces@) + redacted_pieces(
                all,
                at as int,
                mode,
            ),
        decreases tokens.len() - at, rank(mode),
    {
        let taken = take_step(&tokens, at, mode);
        let ghost before = views(pieces@);
        let ghost now = taken@;
        append_all(&mut pieces, taken.pieces);
        at = at + taken.taken;
        mode = taken.mode;
        proof {
            assert(before + (now.pieces + redacted_pieces(all, at as int, mode)) =~= views(pieces@)
                + redacted_pieces(all, at as int, mode));
        }
    }
    proof {
        assert(views(pieces@) + Seq::<Seq<char>>::empty() =~= views(pieces@));
    }
    join(&pieces, " ")
}

// ---------------------------------------------------------------------------
// What redaction guarantees
// ---------------------------------------------------------------------------
/// A text without control characters, slashes and backslashes.
pub open spec fn is_plain_text(s: Seq<char>) -> bool {
    forall|i: int|
        0 <= i < s.len() ==> !is_control(#[trigger] s[i]) && s[i] != '/' && s[i] != '\\'
}

pub open spec fn all_free_of_control(tokens: Seq<Token>) -> bool {
    forall|i: int| 0 <= i < tokens.len() ==> free_of_control((#[trigger] tokens[i]).value)
}

pub open spec fn all_plain_text(pieces: Seq<Seq<char>>) -> bool {
    forall|i: int| 0 <= i < pieces.len() ==> is_plain_text(#[trigger] pieces[i])
}

proof fn lemma_scanned_free_of_control(s: Seq<char>, quote: Option<char>, token: Token)
    requires
        free_of_control(s),
        free_of_control(token.value),
    ensures
        free_of_control(scanned(s, quote, token).0.value),
        free_of_control(scanned(s, quote, token).1),
    decreases s.len(),
{
    if s.len() > 0 {
        let c = s[0];
        let rest = s.drop_first();
        assert forall|i: int| 0 <= i < rest.len() implies !is_control(#[trigger] rest[i]) by {
            assert(rest[i] == s[i + 1]);
        }
        assert(free_of_control(extended(token, c).value));
        if quote == Some(c) {
            lemma_scanned_free_of_control(rest, None, token);
        } else if c == '\\' {
            if rest.len() > 0 {
                let later = rest.drop_first();
                assert forall|i: int| 0 <= i < later.len() implies !is_control(
                    #[trigger] later[i],
                ) by {
                    assert(later[i] == rest[i + 1]);
                }
                assert(free_of_control(extended(token, rest[0]).value));
                lemma_scanned_free_of_control(later, quote, extended(token, rest[0]));
            }
        } else if quote is Some {
            lemma_scanned_free_of_control(rest, quote, extended(token, c));
        } else if c == '\'' || c == '"' {
            lemma_scanned_free_of_control(
                rest,
                Some(c),
                Token { value: token.value, quoted: true },
            );
        } else if !is_whitespace(c) {
            lemma_scanned_free_of_control(rest, None, extended(token, c));
        }
    }
}

proof fn lemma_trimmed_start_free_of_control(s: Seq<char>)
    requires
        free_of_control(s),
    ensures
        free_of_control(trimmed_start(s)),
    decreases s.len(),
{
    if s.len() > 0 && is_whitespace(s[0]) {
        assert forall|i: int| 0 <= i < s.drop_first().len() implies !is_control(
            #[trigger] s.drop_first()[i],
        ) by {
            assert(s.drop_first()[i] == s[i + 1]);
        }
        lemma_trimmed_start_free_of_control(s.drop_first());
    }
}

proof fn lemma_lexed_free_of_control(s: Seq<char>)
    requires
        free_of_control(s),
    ensures
        all_free_of_control(lexed(s)),
    decreases s.len(),
{
    let start = trimmed_start(s);
    lemma_trimmed_start_shrinks(s);
    lemma_trimmed_start_free_of_control(s);
    if start.len() > 0 {
        let (token, rest) = scanned(start, None, no_token());
        lemma_scanned_shrinks(start, None, no_token());
        lemma_scanned_free_of_control(start, None, no_token());
        lemma_lexed_free_of_control(rest);
        assert forall|i: int| 0 <= i < lexed(s).len() implies free_of_control(
            (#[trigger] lexed(s)[i]).value,
        ) by {
            if i > 0 {
                assert(lexed(s)[i] == lexed(rest)[i - 1]);
            }
        }
    }
}

proof fn lemma_fixed_words_are_plain()
    ensures
        is_plain_text("[path]"@),
        is_plain_text("[REDACTED]"@),
        is_plain_text("=[REDACTED]"@),
        is_plain_text(":"@),
        is_plain_text("="@),
        is_plain_text(":="@),
        is_plain_text(" "@),
{
    reveal_strlit("[path]");
    reveal_strlit("[REDACTED]");
    reveal_strlit("=[REDACTED]");
    reveal_strlit(":");
    reveal_strlit("=");
    reveal_strlit(":=");
    reveal_strlit(" ");
}

proof fn lemma_plain_concat(a: Seq<char>, b: Seq<char>)
    requires
        is_plain_text(a),
        is_plain_text(b),
    ensures
        is_plain_text(a + b),
{
    assert forall|i: int| 0 <= i < (a + b).len() implies !is_control(#[trigger] (a + b)[i]) && (a
        + b)[i] != '/' && (a + b)[i] != '\\' by {
        if i < a.len() {
            assert((a + b)[i] == a[i]);
        } else {
            assert((a + b)[i] == b[i - a.len()]);
        }
    }
}

proof fn lemma_bearer_has_letters(s: Seq<char>, i: int)
    requires
        is_bearer(s),
        0 <= i < s.len(),
    ensures
        is_alphanumeric(s[i]),
{
    reveal_strlit("bearer");
    let word = "bearer"@;
    assert(lowered(s).len() == 6);
    assert(lowered(s)[i] == lower(s[i]));
    assert(word[0] == 'b' && word[1] == 'e' && word[2] == 'a' && word[3] == 'r' && word[4] == 'e'
        && word[5] == 'r');
    assert(i == 0 || i == 1 || i == 2 || i == 3 || i == 4 || i == 5);
}

proof fn lemma_bearer_is_plain(s: Seq<char>)
    requires
        is_bearer(s),
        free_of_control(s),
    ensures
        is_plain_text(s),
{
    assert forall|i: int| 0 <= i < s.len() implies !is_control(#[trigger] s[i]) && s[i] != '/'
        && s[i] != '\\' by {
        lemma_bearer_has_letters(s, i);
    }
}

proof fn lemma_step_is_plain(tokens: Seq<Token>, at: int, mode: Mode)
    requires
        0 <= at < tokens.len(),
        all_free_of_control(tokens),
    ensures
        all_plain_text(step(tokens, at, mode).pieces),
{
    lemma_fixed_words_are_plain();
    let v = tokens[at].value;
    assert(free_of_control(tokens[at].value));
    if is_bearer(v) {
        lemma_bearer_is_plain(v);
    }
    if mode == Mode::Plain && !is_path_token(v) {
        assert forall|i: int| 0 <= i < v.len() implies !is_control(#[trigger] v[i]) && v[i] != '/'
            && v[i] != '\\' by {
            assert(!v.contains('/'));
            assert(!v.contains('\\'));
        }
        assert forall|n: int| 0 <= n <= v.len() implies is_plain_text(#[trigger] v.take(n)) by {
            assert forall|i: int| 0 <= i < n implies !is_control(#[trigger] v.take(n)[i])
                && v.take(n)[i] != '/' && v.take(n)[i] != '\\' by {
                assert(v.take(n)[i] == v[i]);
            }
        }
        if key_before(v, '=') is Some {
            lemma_first_of_bounds(v, '=');
            lemma_plain_concat(key_before(v, '=')->0, "=[REDACTED]"@);
        }
        if key_before(v, ':') is Some {
            lemma_first_of_bounds(v, ':');
            lemma_plain_concat(key_before(v, ':')->0, ":"@);
        }
        if label_end(v) is Some {
            lemma_label_end_bounds(v);
            reveal_strlit(":=");
            let end = label_end(v)->0 + separator_len(v.skip(label_end(v)->0));
            lemma_plain_concat(v.take(end), hidden());
        }
    }
}

proof fn lemma_first_of_bounds(s: Seq<char>, c: char)
    ensures
        0 <= first_of(s, c) <= s.len(),
    decreases s.len(),
{
    if s.len() > 0 && s[0] != c {
        lemma_first_of_bounds(s.drop_first(), c);
    }
}

proof fn lemma_leading_punctuation_bounds(s: Seq<char>)
    ensures
        leading_punctuation(s) <= s.len(),
    decreases s.len(),
{
    if s.len() > 0 && is_session_punctuation(s[0]) {
        lemma_leading_punctuation_bounds(s.drop_first());
    }
}

proof fn lemma_label_end_bounds(s: Seq<char>)
    requires
        label_end(s) is Some,
    ensures
        0 <= label_end(s)->0 <= s.len(),
{
    lemma_leading_punctuation_bounds(s);
}

proof fn lemma_redacted_pieces_are_plain(tokens: Seq<Token>, at: int, mode: Mode)
    requires
        all_free_of_control(tokens),
    ensures
        all_plain_text(redacted_pieces(tokens, at, mode)),
    decreases tokens.len() - at, rank(mode),
{
    if 0 <= at < tokens.len() {
        let now = step(tokens, at, mode);
        lemma_step_is_plain(tokens, at, mode);
        lemma_redacted_pieces_are_plain(tokens, at + now.taken, now.mode);
        let rest = redacted_pieces(tokens, at + now.taken, now.mode);
        let all = redacted_pieces(tokens, at, mode);
        assert forall|i: int| 0 <= i < all.len() implies is_plain_text(#[trigger] all[i]) by {
            if i < now.pieces.len() {
                assert(all[i] == now.pieces[i]);
            } else {
                assert(all[i] == rest[i - now.pieces.len()]);
            }
        }
    }
}

proof fn lemma_joined_is_plain(parts: Seq<Seq<char>>, separator: Seq<char>)
    requires
        all_plain_text(parts),
        is_plain_text(separator),
    ensures
        is_plain_text(joined(parts, separator)),
    decreases parts.len(),
{
    if parts.len() > 1 {
        let init = parts.drop_last();
        assert forall|i: int| 0 <= i < init.len() implies is_plain_text(#[trigger] init[i]) by {
            assert(init[i] == parts[i]);
        }
        lemma_joined_is_plain(init, separator);
        lemma_plain_concat(joined(init, separator), separator);
        lemma_plain_concat(joined(init, separator) + separator, parts.last());
    }
}

/// Redacted text holds no control character and no path: there is no slash and
/// no backslash in it.
pub proof fn lemma_redacted_is_plain_text(s: Seq<char>)
    ensures
        is_plain_text(redacted(s)),
{
    lemma_stripped_has_no_control(s);
    lemma_lexed_free_of_control(stripped(s));
    let tokens = lexed(stripped(s));
    lemma_redacted_pieces_are_plain(tokens, 0, Mode::Plain);
    lemma_fixed_words_are_plain();
    lemma_joined_is_plain(redacted_pieces(tokens, 0, Mode::Plain), " "@);
}

/// A word that names a secret in a `name=value` token never lets the value
/// through: in every mode the step at such a token puts out the name at most.
pub proof fn lemma_sensitive_assignment_is_hidden(tokens: Seq<Token>, at: int, mode: Mode)
    requires
        0 <= at < tokens.len(),
        key_before(tokens[at].value, '=') is Some,
        is_sensitive_key(key_before(tokens[at].value, '=')->0),
    ensures
        step(tokens, at, mode).pieces.len() <= 1,
        step(tokens, at, mode).pieces.len() == 1 ==> ({
            let piece = step(tokens, at, mode).pieces[0];
            ||| piece == hidden()
            ||| piece == "[path]"@
            ||| piece == key_before(tokens[at].value, '=')->0 + "=[REDACTED]"@
        }),
{
    let v = tokens[at].value;
    reveal_strlit("=");
    if v == "="@ {
        assert(first_of(v, '=') == 0);
        assert(v.take(0) =~= Seq::<char>::empty());
        lemma_empty_key_is_harmless();
    }
    if is_bearer(v) {
        lemma_first_of_bounds(v, '=');
        lemma_first_of_found(v, '=');
        lemma_bearer_has_letters(v, first_of(v, '='));
    }
}

proof fn lemma_first_of_found(s: Seq<char>, c: char)
    requires
        first_of(s, c) < s.len(),
    ensures
        s[first_of(s, c)] == c,
    decreases s.len(),
{
    if s.len() > 0 && s[0] != c {
        lemma_first_of_bounds(s.drop_first(), c);
        lemma_first_of_found(s.drop_first(), c);
    }
}

proof fn lemma_empty_key_is_harmless()
    ensures
        !is_sensitive_key(Seq::<char>::empty()),
{
    reveal_strlit("TOKEN");
    reveal_strlit("SECRET");
    reveal_strlit("PASSWORD");
    reveal_strlit("PASSWD");
    reveal_strlit("ACCESS_KEY");
    reveal_strlit("API_KEY");
    reveal_strlit("AUTHORIZATION");
    reveal_strlit("CREDENTIAL");
    reveal_strlit("PRIVATE_KEY");
    assert(key_form(Seq::<char>::empty()) =~= Seq::<char>::empty());
}

/// After a word that announces a secret, whatever the next token is, only a
/// bare equals sign of it is shown.
pub proof fn lemma_announced_token_is_hidden(tokens: Seq<Token>, at: int)
    requires
        0 <= at < tokens.len(),
    ensures
        step(tokens, at, Mode::Next).pieces == seq![
            if tokens[at].value == "="@ {
                "="@
            } else {
                hidden()
            },
        ],
{
}

/// The value behind `key:` is replaced where the key is a sensitive one: the
/// next token that starts no other assignment is put out as `[REDACTED]`. The
/// word `bearer` alone is kept, and then the token behind it is replaced; a bare
/// equals sign is kept too, and the value is still to come.
pub proof fn lemma_value_of_a_sensitive_pair_is_hidden(tokens: Seq<Token>, at: int)
    requires
        0 <= at < tokens.len(),
        !(!tokens[at].quoted && tokens[at].value.len() > 1 && tokens[at].value[0] == '-'),
        !(!tokens[at].quoted && (key_before(tokens[at].value, '=') matches Some(key) && (
        is_sensitive_key(key) || is_sensitive_flag(key)))),
        !(at + 1 < tokens.len() && !tokens[at + 1].quoted && tokens[at + 1].value == "="@),
    ensures
        ({
            let v = tokens[at].value;
            let now = step(tokens, at, Mode::Structured);
            &&& now.taken == 1
            &&& lowered(v) != "bearer"@ && v != "="@ ==> now.pieces == seq!["[REDACTED]"@]
                && now.mode == (Mode::Assigned { emitted: true })
            &&& lowered(v) == "bearer"@ ==> now.pieces == seq![v] && now.mode == Mode::Next
            &&& v == "="@ ==> now.pieces == seq![v] && now.mode == (Mode::Assigned {
                emitted: false,
            })
        }),
{
    reveal_strlit("bearer");
    reveal_strlit("=");
    assert(lowered(tokens[at].value).len() == tokens[at].value.len());
}

/// A token whose part before its first colon is a sensitive key is put out as
/// that key, and what comes behind it is the value of the pair; of a token
/// behind the colon nothing is left in the output.
pub proof fn lemma_sensitive_pair_is_hidden(tokens: Seq<Token>, key: int)
    requires
        0 <= key,
        key + 1 < tokens.len(),
        !is_path_token(tokens[key].value),
        key_before(tokens[key].value, ':') is Some,
        is_sensitive_key(key_before(tokens[key].value, ':')->0),
        !(key_before(tokens[key].value, '=') matches Some(k) && is_sensitive_key(k)),
        !(!tokens[key + 1].quoted && tokens[key + 1].value.len() > 1 && tokens[key + 1].value[0] == '-'),
        !(!tokens[key + 1].quoted && (key_before(tokens[key + 1].value, '=') matches Some(key) && (
        is_sensitive_key(key) || is_sensitive_flag(key)))),
        !(key + 2 < tokens.len() && !tokens[key + 2].quoted && tokens[key + 2].value == "="@),
        lowered(tokens[key + 1].value) != "bearer"@,
        tokens[key + 1].value != "="@,
    ensures
        redacted_pieces(tokens, key, Mode::Plain) == seq![
            key_before(tokens[key].value, ':')->0 + ":"@,
            "[REDACTED]"@,
        ] + redacted_pieces(tokens, key + 2, Mode::Assigned { emitted: true }),
{
    lemma_value_of_a_sensitive_pair_is_hidden(tokens, key + 1);
    reveal_with_fuel(redacted_pieces, 3);
    let rest = redacted_pieces(tokens, key + 2, Mode::Assigned { emitted: true });
    assert(redacted_pieces(tokens, key + 1, Mode::Structured) == seq!["[REDACTED]"@] + rest);
    assert(redacted_pieces(tokens, key, Mode::Plain) =~= seq![
        key_before(tokens[key].value, ':')->0 + ":"@,
    ] + redacted_pieces(tokens, key + 1, Mode::Structured));
}

/// Up to the next assignment the value of a sensitive one is put out once, as
/// `[REDACTED]`, however many tokens it has.
pub proof fn lemma_assigned_value_is_hidden_once(tokens: Seq<Token>, at: int, emitted: bool)
    requires
        0 <= at < tokens.len(),
        !(!tokens[at].quoted && tokens[at].value.len() > 1 && tokens[at].value[0] == '-'),
        !(!tokens[at].quoted && (key_before(tokens[at].value, '=') matches Some(key) && (
        is_sensitive_key(key) || is_sensitive_flag(key)))),
        !(at + 1 < tokens.len() && !tokens[at + 1].quoted && tokens[at + 1].value == "="@),
    ensures
        ({
            let now = step(tokens, at, Mode::Assigned { emitted });
            &&& now.taken == 1
            &&& now.mode == (Mode::Assigned { emitted: true })
            &&& emitted ==> now.pieces.len() == 0
            &&& !emitted ==> now.pieces == seq!["[REDACTED]"@]
        }),
{
}

/// An option, another sensitive assignment and a name before a bare equals sign
/// end the value before them: they are read as tokens of their own.
pub proof fn lemma_assignment_ends_at_the_next(tokens: Seq<Token>, at: int, emitted: bool)
    requires
        0 <= at < tokens.len(),
        (!tokens[at].quoted && tokens[at].value.len() > 1 && tokens[at].value[0] == '-') || (
        !tokens[at].quoted && (key_before(tokens[at].value, '=') matches Some(key) && (
        is_sensitive_key(key) || is_sensitive_flag(key)))) || (at + 1 < tokens.len()
            && !tokens[at + 1].quoted && tokens[at + 1].value == "="@),
    ensures
        redacted_pieces(tokens, at, Mode::Assigned { emitted }) == redacted_pieces(
            tokens,
            at,
            Mode::Plain,
        ),
        redacted_pieces(tokens, at, Mode::Structured) == redacted_pieces(tokens, at, Mode::Plain),
{
    reveal_with_fuel(redacted_pieces, 2);
    assert(is_boundary(tokens, at));
    assert(Seq::<Seq<char>>::empty() + redacted_pieces(tokens, at, Mode::Plain)
        =~= redacted_pieces(tokens, at, Mode::Plain));
}

/// A token that holds a slash or a backslash, or that starts with a drive, is
/// put out as `[path]`.
pub proof fn lemma_path_token_is_masked(tokens: Seq<Token>, at: int, i: int)
    requires
        0 <= at < tokens.len(),
        0 <= i < tokens[at].value.len(),
        tokens[at].value[i] == '/' || tokens[at].value[i] == '\\' || (i == 1
            && tokens[at].value[1] == ':' && (tokens[at].value[0] as u32) < 0x80),
    ensures
        step(tokens, at, Mode::Plain) == (Step {
            pieces: seq!["[path]"@],
            taken: 1,
            mode: Mode::Plain,
        }),
{
    assert(tokens[at].value.contains(tokens[at].value[i]));
}

/// Behind `key=` the value is replaced, and so is what follows it; behind
/// `--flag=` the value is replaced.
pub proof fn lemma_assigned_key_is_kept_alone(tokens: Seq<Token>, at: int)
    requires
        0 <= at < tokens.len(),
        !is_path_token(tokens[at].value),
        key_before(tokens[at].value, '=') is Some,
    ensures
        ({
            let key = key_before(tokens[at].value, '=')->0;
            let now = step(tokens, at, Mode::Plain);
            &&& is_sensitive_key(key) ==> now == (Step {
                pieces: seq![key + "=[REDACTED]"@],
                taken: 1,
                mode: Mode::Assigned { emitted: true },
            })
            &&& is_sensitive_flag(key) && !is_sensitive_key(key) && !(key_before(
                tokens[at].value,
                ':',
            ) matches Some(k) && is_sensitive_key(k)) ==> now == (Step {
                pieces: seq![key + "=[REDACTED]"@],
                taken: 1,
                mode: Mode::Plain,
            })
        }),
{
}

/// A token in which nothing is suspicious is put out as it is.
pub proof fn lemma_harmless_token_is_kept(tokens: Seq<Token>, at: int)
    requires
        0 <= at < tokens.len(),
        !is_path_token(tokens[at].value),
        !(key_before(tokens[at].value, '=') matches Some(k) && (is_sensitive_key(k)
            || is_sensitive_flag(k))),
        !(key_before(tokens[at].value, ':') matches Some(k) && is_sensitive_key(k)),
        label_end(tokens[at].value) is None,
        !is_sensitive_flag(tokens[at].value),
        lowered(tokens[at].value) != "bearer"@,
        !is_sensitive_marker(tokens[at].value),
        !is_bare_secret(tokens[at].value),
    ensures
        step(tokens, at, Mode::Plain) == (Step {
            pieces: seq![tokens[at].value],
            taken: 1,
            mode: Mode::Plain,
        }),
{
}

/// A flag that names a secret, and the word `bearer`, are put out and the token
/// behind them is not, whether or not an equals sign stands between.
pub proof fn lemma_token_behind_a_flag_is_hidden(tokens: Seq<Token>, at: int)
    requires
        0 <= at,
        at + 1 < tokens.len(),
        !is_path_token(tokens[at].value),
        key_before(tokens[at].value, '=') is None,
        key_before(tokens[at].value, ':') is None,
        label_end(tokens[at].value) is None,
        is_sensitive_flag(tokens[at].value) || lowered(tokens[at].value) == "bearer"@,
    ensures
        tokens[at + 1].value != "="@ ==> redacted_pieces(tokens, at, Mode::Plain) == seq![
            tokens[at].value,
            "[REDACTED]"@,
        ] + redacted_pieces(tokens, at + 2, Mode::Plain),
        !tokens[at + 1].quoted && tokens[at + 1].value == "="@ ==> redacted_pieces(
            tokens,
            at,
            Mode::Plain,
        ) == seq![tokens[at].value, "="@] + redacted_pieces(
            tokens,
            at + 2,
            Mode::Assigned { emitted: false },
        ),
{
    reveal_with_fuel(redacted_pieces, 3);
    if tokens[at + 1].value != "="@ {
        let rest = redacted_pieces(tokens, at + 2, Mode::Plain);
        assert(redacted_pieces(tokens, at + 1, Mode::Next) == seq!["[REDACTED]"@] + rest);
        assert(redacted_pieces(tokens, at, Mode::Plain) =~= seq![tokens[at].value]
            + redacted_pieces(tokens, at + 1, Mode::Next));
    }
}

/// A word that tells of a secret is itself replaced, and so is the token behind
/// it, unless a bare equals sign follows, which makes it the name of a value.
pub proof fn lemma_marked_token_is_hidden(tokens: Seq<Token>, at: int)
    requires
        0 <= at < tokens.len(),
        !is_path_token(tokens[at].value),
        key_before(tokens[at].value, '=') is None,
        key_before(tokens[at].value, ':') is None,
        label_end(tokens[at].value) is None,
        !is_sensitive_flag(tokens[at].value),
        lowered(tokens[at].value) != "bearer"@,
        is_sensitive_marker(tokens[at].value),
    ensures
        ({
            let named = at + 1 < tokens.len() && !tokens[at + 1].quoted && tokens[at + 1].value
                == "="@;
            step(tokens, at, Mode::Plain) == if named {
                Step {
                    pieces: seq![tokens[at].value, "="@],
                    taken: 2,
                    mode: Mode::Assigned { emitted: false },
                }
            } else {
                Step { pieces: seq!["[REDACTED]"@], taken: 1, mode: Mode::Next }
            }
        }),
{
}

/// What is written like an access token of a known service is replaced, wherever
/// it stands alone: twenty characters or more of letters, digits, `_` and `-`
/// with one of the known beginnings.
pub proof fn lemma_bare_secret_is_hidden(tokens: Seq<Token>, at: int, beginning: Seq<char>)
    requires
        0 <= at < tokens.len(),
        tokens[at].value.len() >= 20,
        forall|i: int|
            0 <= i < tokens[at].value.len() ==> is_alphanumeric(#[trigger] tokens[at].value[i])
                || tokens[at].value[i] == '_' || tokens[at].value[i] == '-',
        beginning == "ghp_"@ || beginning == "github_pat_"@ || beginning == "sk-"@ || beginning
            == "xoxb-"@ || beginning == "xoxp-"@ || beginning == "akia"@,
        begins_with(lowered(tokens[at].value), beginning),
        !is_sensitive_flag(tokens[at].value),
    ensures
        !(at + 1 < tokens.len() && !tokens[at + 1].quoted && tokens[at + 1].value == "="@)
            ==> step(tokens, at, Mode::Plain).pieces == seq!["[REDACTED]"@],
{
    let v = tokens[at].value;
    reveal_strlit("bearer");
    reveal_strlit("agent.context.session_id");
    lemma_first_of_bounds(v, '=');
    lemma_first_of_bounds(v, ':');
    if first_of(v, '=') < v.len() {
        lemma_first_of_found(v, '=');
        assert(is_key_char(v[first_of(v, '=')]));
    }
    if first_of(v, ':') < v.len() {
        lemma_first_of_found(v, ':');
        assert(is_key_char(v[first_of(v, ':')]));
    }
    assert(!v.contains('/')) by {
        if v.contains('/') {
            let i = choose|i: int| 0 <= i < v.len() && v[i] == '/';
            assert(is_key_char(v[i]));
        }
    }
    assert(!v.contains('\\')) by {
        if v.contains('\\') {
            let i = choose|i: int| 0 <= i < v.len() && v[i] == '\\';
            assert(is_key_char(v[i]));
        }
    }
    assert(is_key_char(v[0]));
    assert(is_key_char(v[1]));
    assert(leading_punctuation(v) == 0);
    assert(v.skip(0) =~= v);
    if begins_with(lowered(v), session_label()) {
        let start = lowered(v).subrange(0, session_label().len() as int);
        assert(start[5] == '.');
        assert(lowered(v)[5] == lower(v[5]));
        assert(is_key_char(v[5]));
    }
    assert(lowered(v).len() >= 20);
}

/// The words that make a key a sensitive one, wherever they stand in it.
pub proof fn lemma_sensitive_key_words(s: Seq<char>, word: Seq<char>)
    requires
        word == "TOKEN"@ || word == "SECRET"@ || word == "PASSWORD"@ || word == "PASSWD"@ || word
            == "ACCESS_KEY"@ || word == "API_KEY"@ || word == "AUTHORIZATION"@ || word
            == "CREDENTIAL"@ || word == "PRIVATE_KEY"@,
        contains_text(key_form(s), word),
    ensures
        is_sensitive_key(s),
{
}

/// The words that make a token one that tells of a secret.
pub proof fn lemma_sensitive_marker_words(s: Seq<char>, word: Seq<char>)
    requires
        word == "token"@ || word == "secret"@ || word == "password"@ || word == "passwd"@ || word
            == "prompt"@ || word == "transcript"@ || word == "log_path"@ || word == "session_id"@
            || word == "cookie"@ || word == "apikey"@ || word == "api_key"@ || word
            == "authorization"@ || word == "bearer"@ || word == "credential"@ || word
            == "private_key"@,
        contains_text(lowered(s), word),
    ensures
        is_sensitive_marker(s),
{
}

/// The names and endings that make a flag a sensitive one.
pub proof fn lemma_sensitive_flag_words(s: Seq<char>, word: Seq<char>)
    requires
        ((word == "token"@ || word == "api-key"@ || word == "password"@ || word == "secret"@
            || word == "prompt"@ || word == "transcript"@) && flag_form(s) == word) || ((word
            == "-token"@ || word == "-secret"@ || word == "-password"@ || word == "-key"@)
            && ends_with(flag_form(s), word)),
    ensures
        is_sensitive_flag(s),
{
}

/// Case and the choice between `-` and `_` do not matter in a key, and other
/// characters are passed over: a key is read character by character.
pub proof fn lemma_key_form(s: Seq<char>, c: char)
    ensures
        key_form(Seq::<char>::empty()) == Seq::<char>::empty(),
        c == '-' ==> key_form(s.push(c)) == key_form(s).push('_'),
        'a' <= c <= 'z' ==> key_form(s.push(c)) == key_form(s).push(((c as u32) - 32) as char),
        'A' <= c <= 'Z' || '0' <= c <= '9' || c == '_' ==> key_form(s.push(c)) == key_form(s).push(
            c,
        ),
        !('a' <= c <= 'z' || 'A' <= c <= 'Z' || '0' <= c <= '9' || c == '_' || c == '-')
            ==> key_form(s.push(c)) == key_form(s),
{
    assert(s.push(c).drop_last() =~= s);
}

/// Leading dashes, case and the choice between `-` and `_` do not matter in a
/// flag.
pub proof fn lemma_flag_form(s: Seq<char>, t: Seq<char>)
    requires
        s.len() == t.len(),
        forall|i: int|
            0 <= i < s.len() ==> (#[trigger] s[i]) == t[i] || lower(s[i]) == lower(t[i]) || (s[i]
                == '_' && t[i] == '-'),
        s.len() > 0 ==> t[0] != '-',
        s.len() > 0 ==> s[0] != '-',
    ensures
        flag_form(seq!['-'] + s) == flag_form(s),
        flag_form(s) == flag_form(t),
{
    assert((seq!['-'] + s).drop_first() =~= s);
    assert(flag_form(s) =~= flag_form(t));
}

/// Text without control characters is not changed by the removal of them.
pub proof fn lemma_clean_text_is_kept(s: Seq<char>)
    requires
        forall|i: int| 0 <= i < s.len() ==> !is_control(#[trigger] s[i]),
    ensures
        stripped(s) == s,
    decreases s.len(),
{
    if s.len() > 0 {
        assert(!is_control(s[0]));
        lemma_clean_text_is_kept(s.drop_first());
        assert(seq![s[0]] + s.drop_first() =~= s);
    }
}

/// A control character that starts no sequence becomes a space, and what stands
/// behind it is read as if it stood alone.
pub proof fn lemma_control_character_becomes_a_space(c: char, rest: Seq<char>)
    requires
        is_control(c),
        c != '\x1b',
    ensures
        stripped(seq![c] + rest) == seq![' '] + stripped(rest),
{
    assert((seq![c] + rest).drop_first() =~= rest);
}

/// A control sequence is removed up to its final character.
pub proof fn lemma_control_sequence_is_removed(
    parameters: Seq<char>,
    end: char,
    rest: Seq<char>,
)
    requires
        forall|i: int|
            0 <= i < parameters.len() ==> !('@' <= (#[trigger] parameters[i]) <= '~'),
        '@' <= end <= '~',
    ensures
        stripped(seq!['\x1b', '['] + parameters + seq![end] + rest) == stripped(rest),
{
    let s = seq!['\x1b', '['] + parameters + seq![end] + rest;
    assert(s.skip(2) =~= parameters + seq![end] + rest);
    lemma_after_control_sequence(parameters, end, rest);
}

proof fn lemma_after_control_sequence(parameters: Seq<char>, end: char, rest: Seq<char>)
    requires
        forall|i: int|
            0 <= i < parameters.len() ==> !('@' <= (#[trigger] parameters[i]) <= '~'),
        '@' <= end <= '~',
    ensures
        after_control_sequence(parameters + seq![end] + rest) == rest,
    decreases parameters.len(),
{
    let s = parameters + seq![end] + rest;
    if parameters.len() == 0 {
        assert(s[0] == end);
        assert(s.drop_first() =~= rest);
    } else {
        assert(s[0] == parameters[0]);
        assert(s.drop_first() =~= parameters.drop_first() + seq![end] + rest);
        lemma_after_control_sequence(parameters.drop_first(), end, rest);
    }
}

/// A command to the terminal is removed up to the bell that ends it.
pub proof fn lemma_system_command_is_removed(body: Seq<char>, rest: Seq<char>)
    requires
        forall|i: int|
            0 <= i < body.len() ==> (#[trigger] body[i]) != '\x07' && body[i] != '\x1b',
    ensures
        stripped(seq!['\x1b', ']'] + body + seq!['\x07'] + rest) == stripped(rest),
{
    let s = seq!['\x1b', ']'] + body + seq!['\x07'] + rest;
    assert(s.skip(2) =~= body + seq!['\x07'] + rest);
    lemma_after_system_command(body, rest);
}

proof fn lemma_after_system_command(body: Seq<char>, rest: Seq<char>)
    requires
        forall|i: int|
            0 <= i < body.len() ==> (#[trigger] body[i]) != '\x07' && body[i] != '\x1b',
    ensures
        after_system_command(body + seq!['\x07'] + rest, false) == rest,
    decreases body.len(),
{
    let s = body + seq!['\x07'] + rest;
    if body.len() == 0 {
        assert(s[0] == '\x07');
        assert(s.drop_first() =~= rest);
    } else {
        assert(s[0] == body[0]);
        assert(s.drop_first() =~= body.drop_first() + seq!['\x07'] + rest);
        lemma_after_system_command(body.drop_first(), rest);
    }
}

/// A word without blanks, quotes and backslashes is one token, and what stands
/// behind the blank after it is read on its own.
pub proof fn lemma_word_is_a_token(word: Seq<char>, blank: char, rest: Seq<char>)
    requires
        word.len() > 0,
        forall|i: int|
            0 <= i < word.len() ==> !is_whitespace(#[trigger] word[i]) && word[i] != '\\'
                && word[i] != '\'' && word[i] != '"',
        is_whitespace(blank),
    ensures
        lexed(word + seq![blank] + rest) == seq![Token { value: word, quoted: false }] + lexed(
            rest,
        ),
{
    let s = word + seq![blank] + rest;
    assert(s[0] == word[0]);
    assert(trimmed_start(s) == s);
    lemma_word_is_scanned(word, blank, rest, no_token());
    assert(no_token().value + word =~= word);
}

proof fn lemma_word_is_scanned(word: Seq<char>, blank: char, rest: Seq<char>, token: Token)
    requires
        forall|i: int|
            0 <= i < word.len() ==> !is_whitespace(#[trigger] word[i]) && word[i] != '\\'
                && word[i] != '\'' && word[i] != '"',
        is_whitespace(blank),
    ensures
        scanned(word + seq![blank] + rest, None, token) == (
            Token { value: token.value + word, quoted: token.quoted },
            rest,
        ),
    decreases word.len(),
{
    let s = word + seq![blank] + rest;
    if word.len() == 0 {
        assert(s[0] == blank);
        assert(s.drop_first() =~= rest);
        assert(token.value + word =~= token.value);
    } else {
        assert(s[0] == word[0]);
        assert(s.drop_first() =~= word.drop_first() + seq![blank] + rest);
        lemma_word_is_scanned(word.drop_first(), blank, rest, extended(token, word[0]));
        assert(token.value.push(word[0]) + word.drop_first() =~= token.value + word);
    }
}

/// Between two quotes of one kind everything but a backslash belongs to the
/// token, which is a quoted one.
pub proof fn lemma_quoted_text_is_a_token(quote: char, body: Seq<char>, blank: char, rest: Seq<char>)
    requires
        quote == '\'' || quote == '"',
        forall|i: int| 0 <= i < body.len() ==> (#[trigger] body[i]) != '\\' && body[i] != quote,
        is_whitespace(blank),
    ensures
        lexed(seq![quote] + body + seq![quote, blank] + rest) == seq![
            Token { value: body, quoted: true },
        ] + lexed(rest),
{
    let s = seq![quote] + body + seq![quote, blank] + rest;
    assert(s[0] == quote);
    assert(trimmed_start(s) == s);
    assert(s.drop_first() =~= body + seq![quote, blank] + rest);
    lemma_quoted_text_is_scanned(
        quote,
        body,
        blank,
        rest,
        Token { value: Seq::empty(), quoted: true },
    );
    assert(Seq::<char>::empty() + body =~= body);
}

proof fn lemma_quoted_text_is_scanned(
    quote: char,
    body: Seq<char>,
    blank: char,
    rest: Seq<char>,
    token: Token,
)
    requires
        quote == '\'' || quote == '"',
        forall|i: int| 0 <= i < body.len() ==> (#[trigger] body[i]) != '\\' && body[i] != quote,
        is_whitespace(blank),
    ensures
        scanned(body + seq![quote, blank] + rest, Some(quote), token) == (
            Token { value: token.value + body, quoted: token.quoted },
            rest,
        ),
    decreases body.len(),
{
    let s = body + seq![quote, blank] + rest;
    if body.len() == 0 {
        assert(s[0] == quote);
        let t = s.drop_first();
        assert(t[0] == blank);
        assert(t.drop_first() =~= rest);
        assert(scanned(t, None, token) == (token, rest));
        assert(token.value + body =~= token.value);
    } else {
        assert(s[0] == body[0]);
        assert(s.drop_first() =~= body.drop_first() + seq![quote, blank] + rest);
        lemma_quoted_text_is_scanned(quote, body.drop_first(), blank, rest, extended(token, body[0]));
        assert(token.value.push(body[0]) + body.drop_first() =~= token.value + body);
    }
}

/// What stands behind the label of a session is replaced. The label is known in
/// any case, behind any punctuation, and `=`, `:` or `:=` separates it from what
/// it names, in the same token or as the token behind.
pub proof fn lemma_session_is_hidden(
    tokens: Seq<Token>,
    at: int,
    punctuation: Seq<char>,
    label: Seq<char>,
    separator: Seq<char>,
    behind: Seq<char>,
)
    requires
        0 <= at < tokens.len(),
        tokens[at].value == punctuation + label + separator + behind,
        all_punctuation(punctuation),
        lowered(label) == "agent.context.session_id"@,
        separator == "="@ || separator == ":"@ || separator == ":="@,
        separator == ":"@ ==> behind.len() == 0 || behind[0] != '=',
        !is_path_token(tokens[at].value),
        !(key_before(tokens[at].value, '=') matches Some(k) && (is_sensitive_key(k)
            || is_sensitive_flag(k))),
        !(key_before(tokens[at].value, ':') matches Some(k) && is_sensitive_key(k)),
    ensures
        step(tokens, at, Mode::Plain) == if all_punctuation(behind) {
            Step {
                pieces: seq![punctuation + label + separator],
                taken: 1,
                mode: Mode::Assigned { emitted: false },
            }
        } else {
            Step {
                pieces: seq![punctuation + label + separator + "[REDACTED]"@],
                taken: 1,
                mode: Mode::Assigned { emitted: true },
            }
        },
{
    let v = tokens[at].value;
    let n = punctuation.len() as int;
    let m = label.len() as int;
    reveal_strlit("agent.context.session_id");
    reveal_strlit("=");
    reveal_strlit(":");
    reveal_strlit(":=");
    assert(lowered(label).len() == label.len());
    assert(lowered(label)[0] == lower(label[0]));
    assert(v[n] == label[0]);
    assert forall|i: int| 0 <= i < n implies is_session_punctuation(#[trigger] v[i]) by {
        assert(v[i] == punctuation[i]);
    }
    lemma_leading_punctuation(v, n as nat);
    let from = v.skip(n);
    assert(lowered(from).subrange(0, m) =~= lowered(label));
    assert(label_end(v) == Some(n + m));
    let suffix = v.skip(n + m);
    assert(suffix =~= separator + behind);
    if separator == ":="@ {
        assert(suffix.subrange(0, 2) =~= ":="@);
    } else {
        assert(suffix[0] == separator[0]);
        if begins_with(suffix, ":="@) {
            assert(suffix.subrange(0, 2)[1] == '=');
            assert(suffix.subrange(0, 2)[0] == ':');
            assert(suffix[1] == behind[0]);
        }
    }
    assert(separator_len(suffix) == separator.len());
    let end = n + m + separator.len();
    assert(v.skip(end) =~= behind);
    assert(v.take(end) =~= punctuation + label + separator);
}

/// The label of a session may also stand alone: a separator behind it, as a token
/// of its own, is kept, and what comes then is replaced.
pub proof fn lemma_session_behind_a_separator_is_hidden(tokens: Seq<Token>, at: int)
    requires
        0 <= at < tokens.len(),
        lowered(tokens[at].value) == "agent.context.session_id"@,
        !is_path_token(tokens[at].value),
        key_before(tokens[at].value, '=') is None,
        key_before(tokens[at].value, ':') is None,
    ensures
        ({
            let next = tokens[at + 1];
            let parted = at + 1 < tokens.len() && !next.quoted && (next.value == "="@ || next.value
                == ":"@ || next.value == ":="@);
            step(tokens, at, Mode::Plain) == if parted {
                Step {
                    pieces: seq![tokens[at].value, next.value],
                    taken: 2,
                    mode: Mode::Assigned { emitted: false },
                }
            } else {
                Step {
                    pieces: seq![tokens[at].value],
                    taken: 1,
                    mode: Mode::Assigned { emitted: false },
                }
            }
        }),
{
    let v = tokens[at].value;
    reveal_strlit("agent.context.session_id");
    reveal_strlit(":=");
    assert(lowered(v).len() == v.len());
    assert(lowered(v)[0] == lower(v[0]));
    assert(leading_punctuation(v) == 0);
    assert(v.skip(0) =~= v);
    assert(lowered(v).subrange(0, v.len() as int) =~= lowered(v));
    assert(label_end(v) == Some(v.len() as int));
    assert(v.skip(v.len() as int) =~= Seq::<char>::empty());
    assert(separator_len(Seq::<char>::empty()) == 0);
}

/// A key, a flag and a word are sensitive by these words alone.
pub proof fn lemma_nothing_else_is_sensitive(s: Seq<char>)
    ensures
        is_sensitive_key(s) ==> contains_text(key_form(s), "TOKEN"@) || contains_text(
            key_form(s),
            "SECRET"@,
        ) || contains_text(key_form(s), "PASSWORD"@) || contains_text(key_form(s), "PASSWD"@)
            || contains_text(key_form(s), "ACCESS_KEY"@) || contains_text(key_form(s), "API_KEY"@)
            || contains_text(key_form(s), "AUTHORIZATION"@) || contains_text(
            key_form(s),
            "CREDENTIAL"@,
        ) || contains_text(key_form(s), "PRIVATE_KEY"@),
        is_sensitive_flag(s) ==> flag_form(s) == "token"@ || flag_form(s) == "api-key"@
            || flag_form(s) == "password"@ || flag_form(s) == "secret"@ || flag_form(s)
            == "prompt"@ || flag_form(s) == "transcript"@ || ends_with(flag_form(s), "-token"@)
            || ends_with(flag_form(s), "-secret"@) || ends_with(flag_form(s), "-password"@)
            || ends_with(flag_form(s), "-key"@),
        is_sensitive_marker(s) ==> contains_text(lowered(s), "token"@) || contains_text(
            lowered(s),
            "secret"@,
        ) || contains_text(lowered(s), "password"@) || contains_text(lowered(s), "passwd"@)
            || contains_text(lowered(s), "prompt"@) || contains_text(lowered(s), "transcript"@)
            || contains_text(lowered(s), "log_path"@) || contains_text(lowered(s), "session_id"@)
            || contains_text(lowered(s), "cookie"@) || contains_text(lowered(s), "apikey"@)
            || contains_text(lowered(s), "api_key"@) || contains_text(lowered(s), "authorization"@)
            || contains_text(lowered(s), "bearer"@) || contains_text(lowered(s), "credential"@)
            || contains_text(lowered(s), "private_key"@),
        is_bare_secret(s) ==> s.len() >= 20 && (begins_with(lowered(s), "ghp_"@) || begins_with(
            lowered(s),
            "github_pat_"@,
        ) || begins_with(lowered(s), "sk-"@) || begins_with(lowered(s), "xoxb-"@) || begins_with(
            lowered(s),
            "xoxp-"@,
        ) || begins_with(lowered(s), "akia"@)) && forall|i: int|
            0 <= i < s.len() ==> is_alphanumeric(#[trigger] s[i]) || s[i] == '_' || s[i] == '-',
        is_path_token(s) ==> s.contains('/') || s.contains('\\') || (s.len() >= 2 && (s[0] as u32)
            < 0x80 && s[1] == ':'),
{
    assert forall|i: int| 0 <= i < s.len() && is_bare_secret(s) implies is_alphanumeric(
        #[trigger] s[i],
    ) || s[i] == '_' || s[i] == '-' by {
        assert(is_key_char(s[i]));
    }
}

/// A token without the label of a session in it is no session.
pub proof fn lemma_no_session_without_its_label(s: Seq<char>)
    ensures
        label_end(s) is Some ==> exists|at: int|
            0 <= at <= s.len() && #[trigger] stands_at(
                lowered(s),
                "agent.context.session_id"@,
                at,
            ),
{
    if label_end(s) is Some {
        lemma_leading_punctuation_bounds(s);
        let from = leading_punctuation(s) as int;
        let part = "agent.context.session_id"@;
        let rest = lowered(s.skip(from));
        assert(rest.subrange(0, part.len() as int) == part);
        assert(lowered(s).subrange(from, from + part.len()) =~= rest.subrange(
            0,
            part.len() as int,
        ));
        assert(stands_at(lowered(s), part, from));
    }
}

} // verus!

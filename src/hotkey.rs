use vstd::prelude::*;
use vstd::string::*;

verus! {

/// The set of modifiers that a hotkey holds down with its key.
#[derive(Clone, Copy, Debug, PartialEq, Eq, Structural)]
pub struct ModifierSet {
    pub control: bool,
    pub alt: bool,
    pub shift: bool,
}

impl ModifierSet {
    /// The empty set.
    pub fn empty() -> (r: ModifierSet)
        ensures
            r == ModifierSet::none(),
    {
        ModifierSet { control: false, alt: false, shift: false }
    }

    /// The set with no modifier.
    pub open spec fn none() -> ModifierSet {
        ModifierSet { control: false, alt: false, shift: false }
    }

    /// A modifier is in the union when it is in either set.
    pub open spec fn spec_union(self, o: ModifierSet) -> ModifierSet {
        ModifierSet {
            control: self.control || o.control,
            alt: self.alt || o.alt,
            shift: self.shift || o.shift,
        }
    }

    /// The union of two sets.
    pub fn union(self, o: ModifierSet) -> (r: ModifierSet)
        ensures
            r == self.spec_union(o),
    {
        ModifierSet {
            control: self.control || o.control,
            alt: self.alt || o.alt,
            shift: self.shift || o.shift,
        }
    }
}

/// Whether `c` is one of the key characters `a`-`z`, `0`-`9`.
pub open spec fn is_key_char(c: char) -> bool {
    ('a' <= c && c <= 'z') || ('0' <= c && c <= '9')
}

/// The upper-case form of a letter `a`-`z`.
pub open spec fn upper_of(c: char) -> char {
    "ABCDEFGHIJKLMNOPQRSTUVWXYZ"@[c as int - 'a' as int]
}

/// The W3C code name of a key character.
pub open spec fn code_name_of(c: char) -> Seq<char> {
    if '0' <= c && c <= '9' {
        "Digit"@.push(c)
    } else {
        "Key"@.push(upper_of(c))
    }
}

/// One of the 36 alphanumeric keys that a hotkey can use.
#[derive(Clone, Copy, Debug, PartialEq, Eq, Structural)]
pub struct KeyCode {
    ch: char,
}

impl KeyCode {
    /// The character that labels the key.
    pub closed spec fn spec_char(self) -> char {
        self.ch
    }

    /// A key code is labelled by a key character.
    pub open spec fn wf(self) -> bool {
        is_key_char(self.spec_char())
    }

    /// The key whose label is `c`, if there is one.
    pub fn from_char(c: char) -> (r: Option<KeyCode>)
        ensures
            is_key_char(c) <==> r is Some,
            r is Some ==> r->0.spec_char() == c && r->0.wf(),
    {
        if ('a' <= c && c <= 'z') || ('0' <= c && c <= '9') {
            Some(KeyCode { ch: c })
        } else {
            None
        }
    }

    /// The name of the key as the W3C key codes write it: `KeyA` for a
    /// letter, `Digit0` for a digit.
    pub fn code_name(&self) -> (r: String)
        requires
            self.wf(),
        ensures
            r@ == code_name_of(self.spec_char()),
    {
        let c = self.ch;
        if '0' <= c && c <= '9' {
            let digits = "0123456789";
            let i = (c as u32 - '0' as u32) as usize;
            proof {
                reveal_strlit("0123456789");
            }
            String::from_str("Digit").concat(digits.substring_char(i, i + 1))
        } else {
            let letters = "ABCDEFGHIJKLMNOPQRSTUVWXYZ";
            let i = (c as u32 - 'a' as u32) as usize;
            proof {
                reveal_strlit("ABCDEFGHIJKLMNOPQRSTUVWXYZ");
            }
            let upper = letters.substring_char(i, i + 1);
            assert(upper@ =~= seq![upper_of(c)]);
            String::from_str("Key").concat(upper)
        }
    }

    /// The lower-case character that labels the key.
    pub fn as_char(&self) -> (r: char)
        ensures
            r == self.spec_char(),
    {
        self.ch
    }
}

/// The key that a token names: a single key character, and nothing else.
pub open spec fn code_of(t: Seq<char>) -> Option<char> {
    if t.len() == 1 && is_key_char(t[0]) {
        Some(t[0])
    } else {
        None
    }
}

/// Maps a normalised token to its key code.
pub fn parse_code(key: &str) -> (r: Option<KeyCode>)
    ensures
        match code_of(key@) {
            Some(c) => r is Some && r->0.spec_char() == c && r->0.wf(),
            None => r is None,
        },
{
    if key.unicode_len() != 1 {
        return None;
    }
    KeyCode::from_char(key.get_char(0))
}

/// What `str::trim` leaves of a string.
pub uninterp spec fn trimmed_of(s: Seq<char>) -> Seq<char>;

/// What `str::to_lowercase` makes of a string.
pub uninterp spec fn lower_of(s: Seq<char>) -> Seq<char>;

/// Relies on `str::trim`: the result depends on the characters alone.
#[verifier::external_body]
fn trim_str(s: &str) -> (r: &str)
    ensures
        r@ == trimmed_of(s@),
{
    s.trim()
}

/// Relies on `str::to_lowercase`: the result depends on the characters alone.
#[verifier::external_body]
fn lowercase(s: &str) -> (r: String)
    ensures
        r@ == lower_of(s@),
{
    s.to_lowercase()
}

/// Splits a hotkey string at each `+`; `n` separators give `n + 1` tokens.
pub open spec fn split_plus(s: Seq<char>) -> Seq<Seq<char>>
    decreases s.len(),
{
    if s.len() == 0 {
        seq![Seq::<char>::empty()]
    } else {
        let rest = split_plus(s.drop_last());
        if s.last() == '+' {
            rest.push(Seq::<char>::empty())
        } else {
            rest.update(rest.len() - 1, rest.last().push(s.last()))
        }
    }
}

/// A token as the grammar reads it: trimmed, then lower-cased.
pub open spec fn normalized(t: Seq<char>) -> Seq<char> {
    lower_of(trimmed_of(t))
}

/// The modifier that a normalised token names, if it names one.
pub open spec fn modifier_of(n: Seq<char>) -> Option<ModifierSet> {
    if n == seq!['c', 't', 'r', 'l'] || n == seq!['c', 'o', 'n', 't', 'r', 'o', 'l'] {
        Some(ModifierSet { control: true, alt: false, shift: false })
    } else if n == seq!['a', 'l', 't'] {
        Some(ModifierSet { control: false, alt: true, shift: false })
    } else if n == seq!['s', 'h', 'i', 'f', 't'] {
        Some(ModifierSet { control: false, alt: false, shift: true })
    } else {
        None
    }
}

/// Reads one more token: a modifier joins the set, a key replaces any earlier
/// key, and anything else is refused with the normalised token.
pub open spec fn read_token(
    acc: Result<(ModifierSet, Option<char>), Seq<char>>,
    t: Seq<char>,
) -> Result<(ModifierSet, Option<char>), Seq<char>> {
    match acc {
        Err(e) => Err(e),
        Ok((m, k)) => {
            let n = normalized(t);
            match modifier_of(n) {
                Some(md) => Ok((m.spec_union(md), k)),
                None => match code_of(n) {
                    Some(c) => Ok((m, Some(c))),
                    None => Err(n),
                },
            }
        },
    }
}

/// Reads the tokens from left to right, stopping at the first refused one.
pub open spec fn read_tokens(toks: Seq<Seq<char>>) -> Result<(ModifierSet, Option<char>), Seq<char>>
    decreases toks.len(),
{
    if toks.len() == 0 {
        Ok((ModifierSet::none(), None))
    } else {
        read_token(read_tokens(toks.drop_last()), toks.last())
    }
}

/// The text of the error for a hotkey with no key.
pub open spec fn missing_key() -> Seq<char> {
    seq!['m', 'i', 's', 's', 'i', 'n', 'g', ' ', 'k', 'e', 'y']
}

/// The modifiers and key that a hotkey string names, or the text of the
/// parse error: the refused token, or `missing key`.
pub open spec fn hotkey_of(s: Seq<char>) -> Result<(ModifierSet, char), Seq<char>> {
    match read_tokens(split_plus(s)) {
        Err(n) => Err(n),
        Ok((m, None)) => Err(missing_key()),
        Ok((m, Some(c))) => Ok((m, c)),
    }
}

/// The label of an optional key.
pub open spec fn key_view(k: Option<KeyCode>) -> Option<char> {
    match k {
        Some(kc) => Some(kc.spec_char()),
        None => None,
    }
}

/// Whether two strings hold the same characters.
fn same_text(a: &str, b: &str) -> (r: bool)
    ensures
        r == (a@ == b@),
{
    let n = a.unicode_len();
    if n != b.unicode_len() {
        return false;
    }
    let mut i: usize = 0;
    while i < n
        invariant
            n == a@.len(),
            n == b@.len(),
            0 <= i <= n,
            a@.subrange(0, i as int) == b@.subrange(0, i as int),
        decreases n - i,
    {
        if a.get_char(i) != b.get_char(i) {
            return false;
        }
        assert(a@.subrange(0, i + 1) =~= a@.subrange(0, i as int).push(a@[i as int]));
        assert(b@.subrange(0, i + 1) =~= b@.subrange(0, i as int).push(b@[i as int]));
        i = i + 1;
    }
    assert(a@ =~= a@.subrange(0, n as int));
    assert(b@ =~= b@.subrange(0, n as int));
    true
}

/// The modifier that a normalised token names, if it names one.
fn parse_modifier(n: &str) -> (r: Option<ModifierSet>)
    ensures
        r == modifier_of(n@),
{
    proof {
        reveal_strlit("ctrl");
        reveal_strlit("control");
        reveal_strlit("alt");
        reveal_strlit("shift");
        assert("ctrl"@ =~= seq!['c', 't', 'r', 'l']);
        assert("control"@ =~= seq!['c', 'o', 'n', 't', 'r', 'o', 'l']);
        assert("alt"@ =~= seq!['a', 'l', 't']);
        assert("shift"@ =~= seq!['s', 'h', 'i', 'f', 't']);
    }
    if same_text(n, "ctrl") || same_text(n, "control") {
        Some(ModifierSet { control: true, alt: false, shift: false })
    } else if same_text(n, "alt") {
        Some(ModifierSet { control: false, alt: true, shift: false })
    } else if same_text(n, "shift") {
        Some(ModifierSet { control: false, alt: false, shift: true })
    } else {
        None
    }
}

/// Reads one token of a hotkey string into the modifiers and key so far.
fn apply_token(token: &str, mods: ModifierSet, key: Option<KeyCode>) -> (r: Result<
    (ModifierSet, Option<KeyCode>),
    HotkeyError,
>)
    requires
        key is Some ==> key->0.wf(),
    ensures
        match read_token(Ok((mods, key_view(key))), token@) {
            Ok((m, k)) => r is Ok && r->Ok_0.0 == m && key_view(r->Ok_0.1) == k && (r->Ok_0.1 is Some
                ==> r->Ok_0.1->0.wf()),
            Err(n) => r is Err && r->Err_0 is Parse && r->Err_0->Parse_0@ == n,
        },
{
    let lowered = lowercase(trim_str(token));
    match parse_modifier(lowered.as_str()) {
        Some(md) => Ok((mods.union(md), key)),
        None => match parse_code(lowered.as_str()) {
            Some(c) => Ok((mods, Some(c))),
            None => Err(HotkeyError::Parse(lowered)),
        },
    }
}

/// Splitting one more character either opens a token or extends the last.
proof fn lemma_split_step(s: Seq<char>, i: int)
    requires
        0 <= i < s.len(),
    ensures
        split_plus(s.subrange(0, i + 1)) == ({
            let rest = split_plus(s.subrange(0, i));
            if s[i] == '+' {
                rest.push(Seq::<char>::empty())
            } else {
                rest.update(rest.len() - 1, rest.last().push(s[i]))
            }
        }),
{
    assert(s.subrange(0, i + 1).drop_last() =~= s.subrange(0, i));
}

/// Parses a hotkey string such as `ctrl+alt+k` into its modifiers and key.
///
/// Tokens are split at `+`, trimmed and lower-cased. Of several key tokens
/// the last one is kept.
pub fn parse_hotkey(hotkey: &str) -> (r: Result<(ModifierSet, KeyCode), HotkeyError>)
    ensures
        match hotkey_of(hotkey@) {
            Ok((m, c)) => r is Ok && r->Ok_0.0 == m && r->Ok_0.1.spec_char() == c
                && r->Ok_0.1.wf(),
            Err(n) => r is Err && r->Err_0 is Parse && r->Err_0->Parse_0@ == n,
        },
{
    let n = hotkey.unicode_len();
    let mut mods = ModifierSet::empty();
    let mut key: Option<KeyCode> = None;
    let mut start: usize = 0;
    let mut i: usize = 0;
    let ghost mut done: Seq<Seq<char>> = Seq::empty();
    assert(hotkey@.subrange(0, 0) =~= Seq::<char>::empty());
    assert(done.push(hotkey@.subrange(0, 0)) =~= seq![Seq::<char>::empty()]);
    while i < n
        invariant
            n == hotkey@.len(),
            0 <= start <= i <= n,
            split_plus(hotkey@.subrange(0, i as int)) == done.push(
                hotkey@.subrange(start as int, i as int),
            ),
            read_tokens(done) == Ok::<(ModifierSet, Option<char>), Seq<char>>(
                (mods, key_view(key)),
            ),
            key is Some ==> key->0.wf(),
        decreases n - i,
    {
        proof {
            lemma_split_step(hotkey@, i as int);
        }
        if hotkey.get_char(i) == '+' {
            let token = hotkey.substring_char(start, i);
            let ghost prev = done;
            proof {
                done = done.push(token@);
                assert(done.drop_last() =~= prev);
            }
            match apply_token(token, mods, key) {
                Ok((m, k)) => {
                    mods = m;
                    key = k;
                },
                Err(e) => {
                    proof {
                        lemma_split_step(hotkey@, i as int);
                        lemma_split_prefix(hotkey@, i + 1, n as int);
                        assert(hotkey@.subrange(0, n as int) =~= hotkey@);
                        assert(split_plus(hotkey@.subrange(0, i + 1)).drop_last() =~= done);
                        lemma_read_tokens_stop(split_plus(hotkey@), done);
                    }
                    return Err(e);
                },
            }
            start = i + 1;
            assert(hotkey@.subrange(start as int, start as int) =~= Seq::<char>::empty());
        } else {
            assert(hotkey@.subrange(start as int, i + 1) =~= hotkey@.subrange(
                start as int,
                i as int,
            ).push(hotkey@[i as int]));
        }
        i = i + 1;
    }
    assert(hotkey@.subrange(0, n as int) =~= hotkey@);
    let token = hotkey.substring_char(start, n);
    let ghost all = done.push(token@);
    assert(all.drop_last() =~= done);
    let (mods, key) = match apply_token(token, mods, key) {
        Ok(v) => v,
        Err(e) => {
            return Err(e);
        },
    };
    match key {
        Some(k) => Ok((mods, k)),
        None => {
            let msg = String::from_str("missing key");
            proof {
                reveal_strlit("missing key");
                assert(msg@ =~= missing_key());
            }
            Err(HotkeyError::Parse(msg))
        },
    }
}

/// A split always has at least one token.
proof fn lemma_split_len(s: Seq<char>)
    ensures
        split_plus(s).len() >= 1,
    decreases s.len(),
{
    if s.len() > 0 {
        lemma_split_len(s.drop_last());
    }
}

/// The tokens completed in a prefix stay the first tokens of a longer prefix.
proof fn lemma_split_prefix(s: Seq<char>, j: int, k: int)
    requires
        0 <= j <= k <= s.len(),
    ensures
        split_plus(s.subrange(0, k)).len() >= split_plus(s.subrange(0, j)).len(),
        split_plus(s.subrange(0, k)).subrange(0, split_plus(s.subrange(0, j)).len() - 1)
            == split_plus(s.subrange(0, j)).drop_last(),
    decreases k - j,
{
    lemma_split_len(s.subrange(0, j));
    if k == j {
        assert(split_plus(s.subrange(0, k)).subrange(0, split_plus(s.subrange(0, j)).len() - 1)
            =~= split_plus(s.subrange(0, j)).drop_last());
    } else {
        lemma_split_prefix(s, j, k - 1);
        lemma_split_step(s, k - 1);
        lemma_split_len(s.subrange(0, k - 1));
        assert(split_plus(s.subrange(0, k)).subrange(0, split_plus(s.subrange(0, j)).len() - 1)
            =~= split_plus(s.subrange(0, k - 1)).subrange(0, split_plus(s.subrange(0, j)).len() - 1));
    }
}

/// Once a prefix of the tokens is refused, so is the whole sequence, with the
/// same token.
proof fn lemma_read_tokens_stop(all: Seq<Seq<char>>, prefix: Seq<Seq<char>>)
    requires
        prefix.len() <= all.len(),
        prefix == all.subrange(0, prefix.len() as int),
        read_tokens(prefix) is Err,
    ensures
        read_tokens(all) == read_tokens(prefix),
    decreases all.len(),
{
    if all.len() > prefix.len() {
        assert(all.drop_last().subrange(0, prefix.len() as int) =~= prefix);
        lemma_read_tokens_stop(all.drop_last(), prefix);
    } else {
        assert(all =~= prefix);
    }
}

#[verifier::external_type_specification]
#[verifier::external_body]
pub struct ExGlobalHotKeyError(global_hotkey::Error);

#[verifier::external_type_specification]
#[verifier::external_body]
pub struct ExIoError(std::io::Error);

/// Token lists that read the same, token by token, once trimmed and
/// lower-cased, are read alike.
proof fn lemma_read_tokens_normalized(a: Seq<Seq<char>>, b: Seq<Seq<char>>)
    requires
        a.len() == b.len(),
        forall|i: int| 0 <= i < a.len() ==> normalized(#[trigger] a[i]) == normalized(b[i]),
    ensures
        read_tokens(a) == read_tokens(b),
    decreases a.len(),
{
    if a.len() > 0 {
        assert forall|i: int| 0 <= i < a.drop_last().len() implies normalized(
            #[trigger] a.drop_last()[i],
        ) == normalized(b.drop_last()[i]) by {
            assert(a.drop_last()[i] == a[i]);
            assert(b.drop_last()[i] == b[i]);
        }
        lemma_read_tokens_normalized(a.drop_last(), b.drop_last());
        assert(normalized(a.last()) == normalized(b[b.len() - 1]));
    }
}

/// Two hotkey strings whose `+`-separated tokens agree once trimmed and
/// lower-cased give the same parse: the same modifiers and key, or the same
/// error text.
pub proof fn parse_depends_on_normalized_tokens(a: Seq<char>, b: Seq<char>)
    requires
        split_plus(a).len() == split_plus(b).len(),
        forall|i: int|
            0 <= i < split_plus(a).len() ==> normalized(#[trigger] split_plus(a)[i])
                == normalized(split_plus(b)[i]),
    ensures
        hotkey_of(a) == hotkey_of(b),
{
    lemma_read_tokens_normalized(split_plus(a), split_plus(b));
}

/// Why a hotkey could not be parsed, registered or waited for.
#[derive(Debug)]
pub enum HotkeyError {
    /// The hotkey string names an unknown token, or no key.
    Parse(String),
    /// The platform's hotkey manager could not be started.
    Manager(global_hotkey::Error),
    /// The hotkey could not be registered.
    Register(global_hotkey::Error),
    /// The source of hotkey events is gone.
    Channel,
    /// Reading the simulated trigger from the console failed.
    Interrupt(std::io::Error),
}

/// Relies on the `Display` impl of `global_hotkey::Error` for its text.
#[verifier::external_body]
fn hotkey_error_text(e: &global_hotkey::Error) -> String {
    e.to_string()
}

/// Relies on the `Display` impl of `std::io::Error` for its text.
#[verifier::external_body]
fn io_error_text(e: &std::io::Error) -> String {
    e.to_string()
}

/// Relies on `std::io::Error::from`: an error of kind `UnexpectedEof`.
#[verifier::external_body]
fn unexpected_eof() -> std::io::Error {
    std::io::Error::from(std::io::ErrorKind::UnexpectedEof)
}

/// The message of a parse error about `key`.
pub open spec fn parse_message(key: Seq<char>) -> Seq<char> {
    "invalid hotkey '"@ + key + "'"@
}

impl HotkeyError {
    /// A one-line description of the error, prefixed by what failed.
    pub fn message(&self) -> (r: String)
        ensures
            self is Parse ==> r@ == parse_message(self->Parse_0@),
            self is Channel ==> r@ == "hotkey event channel closed"@,
            self is Manager ==> "global hotkey manager error: "@.is_prefix_of(r@),
            self is Register ==> "failed to register hotkey: "@.is_prefix_of(r@),
            self is Interrupt ==> "input interrupted: "@.is_prefix_of(r@),
    {
        match self {
            HotkeyError::Parse(key) => {
                let mut r = String::from_str("invalid hotkey '");
                r.append(key.as_str());
                r.append("'");
                r
            },
            HotkeyError::Manager(e) => {
                let r = String::from_str("global hotkey manager error: ");
                r.concat(hotkey_error_text(e).as_str())
            },
            HotkeyError::Register(e) => {
                let r = String::from_str("failed to register hotkey: ");
                r.concat(hotkey_error_text(e).as_str())
            },
            HotkeyError::Channel => String::from_str("hotkey event channel closed"),
            HotkeyError::Interrupt(e) => {
                let r = String::from_str("input interrupted: ");
                r.concat(io_error_text(e).as_str())
            },
        }
    }
}

/// Whether a console line was completed by its newline.
pub open spec fn line_completed(line: Seq<char>) -> bool {
    line.len() > 0 && line.last() == '\n'
}

/// Decides the outcome of one wait for the simulated trigger, from what
/// reading a line of the console gave: the line read, or the read's error.
///
/// A completed line triggers; a stream that closes before the line is
/// complete, or a failed read, is an `Interrupt`.
pub fn console_trigger(read: Result<String, std::io::Error>) -> (r: Result<(), HotkeyError>)
    ensures
        r is Ok <==> (read is Ok && line_completed(read->Ok_0@)),
        r is Err ==> r->Err_0 is Interrupt,
{
    match read {
        Ok(line) => {
            let n = line.as_str().unicode_len();
            if n > 0 && line.as_str().get_char(n - 1) == '\n' {
                Ok(())
            } else {
                Err(HotkeyError::Interrupt(unexpected_eof()))
            }
        },
        Err(e) => Err(HotkeyError::Interrupt(e)),
    }
}

} // verus!

//! Optional HTTP Basic authentication.
//!
//! Credentials are `username:password` pairs, from lines of a file and from the
//! command line. Where there are none, authentication is off. Where there are
//! some, every request has to carry one of them.

use vstd::hash_map::StringHashMap;
use vstd::prelude::*;
use vstd::utf8::{
    decode_utf8, decode_utf8_encode_utf8, encode_utf8, encode_utf8_decode_utf8,
    encode_utf8_valid_utf8, valid_utf8,
};

use crate::base64::{
    base64_decode, base64_decoded, base64_encoded, base64_symbols, law_base64_round_trip,
    padding, symbol,
};
use crate::http::{pairs, status_bytes, write_status, Context, Request};
use crate::number::{decimal, decimal_string};
use crate::seqs::{lemma_position, lemma_position_is, position, split, split_once};
use crate::text::{
    chars_of, contents, is_space, law_trimming, lemma_trim_end_front, lemma_trim_start,
    lemma_trimmed, lower, lowered, same_ignoring_case, split_at, split_once_at, string_of,
    trim, trim_start, trimmed, utf8_string,
};

verus! {

/// What a pair that is none is answered.
pub const PAIR_EXPECTED: &'static str = "expected 'username:password'";

/// The user name and the password in `pair`: what stands around its first colon.
/// The user name is not empty; the password may hold colons.
pub open spec fn credential(pair: Seq<char>) -> Option<(Seq<char>, Seq<char>)> {
    match split_once(pair, ':') {
        Some(c) if c.0.len() > 0 => Some(c),
        _ => None,
    }
}

/// Whether a line of a credential file is passed over: blank, or a comment.
pub open spec fn is_comment(line: Seq<char>) -> bool {
    trimmed(line).len() == 0 || trimmed(line)[0] == '#'
}

/// Whether a line is neither passed over nor a credential.
pub open spec fn is_bad(line: Seq<char>) -> bool {
    !is_comment(line) && credential(trimmed(line)) is None
}

/// The index of the first bad line, or the number of lines.
pub open spec fn first_bad(lines: Seq<Seq<char>>) -> nat
    decreases lines.len(),
{
    if lines.len() == 0 || is_bad(lines[0]) {
        0
    } else {
        1 + first_bad(lines.drop_first())
    }
}

/// `creds` with the credentials in `lines` added in order.
pub open spec fn with_lines(
    creds: Map<Seq<char>, Seq<char>>,
    lines: Seq<Seq<char>>,
) -> Map<Seq<char>, Seq<char>>
    decreases lines.len(),
{
    if lines.len() == 0 {
        creds
    } else {
        let before = with_lines(creds, lines.drop_last());
        if is_comment(lines.last()) {
            before
        } else {
            match credential(trimmed(lines.last())) {
                Some(c) => before.insert(c.0, c.1),
                None => before,
            }
        }
    }
}

/// The user name and the password that an `Authorization` value carries.
pub open spec fn presented(value: Seq<char>) -> Option<(Seq<char>, Seq<char>)> {
    match split_once(value, ' ') {
        Some(parts) => if lowered(parts.0) != "basic"@ {
            None
        } else {
            match base64_decoded(trimmed(parts.1)) {
                Some(b) => if valid_utf8(b) {
                    split_once(decode_utf8(b), ':')
                } else {
                    None
                },
                None => None,
            }
        },
        None => None,
    }
}

/// Whether the account `user` exists and has the password `pass`.
pub open spec fn accepts(
    creds: Map<Seq<char>, Seq<char>>,
    user: Seq<char>,
    pass: Seq<char>,
) -> bool {
    creds.contains_key(user) && creds[user] == pass
}

/// Whether a request with this `Authorization` value is permitted.
pub open spec fn permits(creds: Map<Seq<char>, Seq<char>>, value: Option<Seq<char>>) -> bool {
    creds.is_empty() || match value {
        Some(v) => match presented(v) {
            Some(c) => accepts(creds, c.0, c.1),
            None => false,
        },
        None => false,
    }
}

/// The headers that ask for Basic credentials.
pub open spec fn challenge_headers() -> Seq<(Seq<char>, Seq<char>)> {
    seq![("WWW-Authenticate"@, "Basic realm=\"webdav\", charset=\"UTF-8\""@)]
}

/// The credentials that give access.
pub struct Auth {
    creds: StringHashMap<String>,
}

impl View for Auth {
    type V = Map<Seq<char>, Seq<char>>;

    /// The passwords by user name.
    closed spec fn view(&self) -> Map<Seq<char>, Seq<char>> {
        self.creds@.map_values(|p: String| p@)
    }
}

impl Auth {
    /// No credentials: authentication is off.
    pub fn new() -> (r: Auth)
        ensures
            r@ == Map::<Seq<char>, Seq<char>>::empty(),
    {
        let r = Auth { creds: StringHashMap::new() };
        assert(r@ =~= Map::<Seq<char>, Seq<char>>::empty());
        r
    }

    /// Whether authentication is on.
    pub fn is_enabled(&self) -> (r: bool)
        ensures
            r == !self@.is_empty(),
    {
        assert(self@.dom() =~= self.creds@.dom());
        !self.creds.is_empty()
    }

    /// Adds a `username:password` credential. A user name that is there already
    /// gets the new password.
    pub fn add_pair(&mut self, user_pass: &str) -> (r: Result<(), &'static str>)
        ensures
            match credential(user_pass@) {
                Some(c) => r is Ok && final(self)@ == old(self)@.insert(c.0, c.1),
                None => r is Err && final(self)@ == old(self)@,
            },
            r matches Err(e) ==> e@ == PAIR_EXPECTED@,
    {
        let chars = chars_of(user_pass);
        match split_once_at(chars.as_slice(), ':') {
            Some((user, pass)) => {
                if user.len() == 0 {
                    return Err(PAIR_EXPECTED);
                }
                let ghost before = self@;
                self.creds.insert(string_of(user), string_of(pass));
                assert(self@ =~= before.insert(user@, pass@));
                Ok(())
            },
            None => Err(PAIR_EXPECTED),
        }
    }

    /// Adds the credentials in `text`, one on each line; blank lines and lines that
    /// start with `#` are passed over. Stops at the first bad line; `source` says in
    /// the error where the text is from.
    pub fn load(&mut self, text: &str, source: &str) -> (r: Result<(), String>)
        ensures
            ({
                let lines = split(text@, '\n');
                let n = first_bad(lines);
                &&& r is Ok <==> n == lines.len()
                &&& final(self)@ == with_lines(old(self)@, lines.take(n as int))
                &&& r matches Err(e) ==> e@ == source@ + ":"@ + decimal(n + 1) + ": "@
                    + PAIR_EXPECTED@
            }),
    {
        let chars = chars_of(text);
        let lines = split_at(chars.as_slice(), '\n');
        let ghost all = split(text@, '\n');
        let ghost before = self@;
        assert(all.skip(0) =~= all);
        assert(all.take(0) =~= seq![]);
        let mut i: usize = 0;
        while i < lines.len()
            invariant
                i <= lines.len(),
                contents(lines@) == all,
                all == split(text@, '\n'),
                before == old(self)@,
                self@ == with_lines(before, all.take(i as int)),
                first_bad(all) == i + first_bad(all.skip(i as int)),
            decreases lines.len() - i,
        {
            let ghost rest = all.skip(i as int);
            let ghost front = all.take(i + 1);
            assert(rest.drop_first() =~= all.skip(i + 1));
            assert(front.drop_last() =~= all.take(i as int));
            assert(front.last() == lines@[i as int]@);
            assert(rest[0] == lines@[i as int]@);
            let line = trim(lines[i]);
            if line.len() > 0 && line[0] != '#' {
                let pair = string_of(line);
                match self.add_pair(pair.as_str()) {
                    Ok(_) => {},
                    Err(msg) => {
                        let mut e = source.to_string();
                        e.append(":");
                        e.append(decimal_string(i as u64 + 1).as_str());
                        e.append(": ");
                        e.append(msg);
                        return Err(e);
                    },
                }
            }
            i += 1;
        }
        Ok(())
    }

    /// Whether the request is permitted: authentication is off, or the request
    /// carries a valid Basic credential.
    pub fn authorize(&self, req: &Request) -> (r: bool)
        ensures
            r == permits(self@, req.value_of("authorization"@)),
    {
        !self.is_enabled() || match self.check_credential(req) {
            Some(ok) => ok,
            None => false,
        }
    }

    /// Whether the Basic credential in the request is right; `None` where there is
    /// none or it is malformed.
    pub fn check_credential(&self, req: &Request) -> (r: Option<bool>)
        ensures
            r == match req.value_of("authorization"@) {
                Some(v) => match presented(v) {
                    Some(c) => Some(accepts(self@, c.0, c.1)),
                    None => None,
                },
                None => None,
            },
    {
        let header = match req.header("authorization") {
            Some(v) => chars_of(v),
            None => {
                return None;
            },
        };
        let (scheme, rest) = match split_once_at(header.as_slice(), ' ') {
            Some(parts) => parts,
            None => {
                return None;
            },
        };
        proof {
            lemma_basic_is_lowered();
        }
        if !same_ignoring_case(scheme, "basic") {
            return None;
        }
        let decoded = match base64_decode(trim(rest)) {
            Some(b) => utf8_string(b),
            None => {
                return None;
            },
        };
        let chars = match decoded {
            Some(s) => chars_of(s.as_str()),
            None => {
                return None;
            },
        };
        match split_once_at(chars.as_slice(), ':') {
            Some((user, pass)) => {
                let name = string_of(user);
                let password = string_of(pass);
                let stored: Option<&[u8]> = match self.creds.get(name.as_str()) {
                    Some(p) => Some(p.as_str().as_bytes()),
                    None => None,
                };
                proof {
                    if self.creds@.contains_key(user@) {
                        lemma_same_encoding(self.creds@[user@]@, pass@);
                    }
                }
                Some(password_matches(stored, password.as_str().as_bytes()))
            },
            None => None,
        }
    }

    /// The response that asks for Basic credentials.
    pub fn challenge(&self, ctx: &Context) -> (r: Vec<u8>)
        ensures
            r@ == status_bytes(*ctx, 401, "Unauthorized"@, challenge_headers()),
    {
        let headers = challenge_fields();
        write_status(ctx, 401, "Unauthorized", headers.as_slice())
    }
}

/// The headers that ask for Basic credentials.
pub fn challenge_fields() -> (r: Vec<(&'static str, String)>)
    ensures
        pairs(r@) == challenge_headers(),
{
    let mut headers: Vec<(&'static str, String)> = Vec::new();
    headers.push(("WWW-Authenticate", "Basic realm=\"webdav\", charset=\"UTF-8\"".to_string()));
    assert(pairs(headers@) =~= challenge_headers());
    headers
}

/// The name of the scheme is in small letters.
proof fn lemma_basic_is_lowered()
    ensures
        lowered("basic"@) == "basic"@,
{
    reveal_strlit("basic");
    assert(lowered("basic"@) =~= "basic"@);
}

/// Two texts are the same where their UTF-8 is.
proof fn lemma_same_encoding(a: Seq<char>, b: Seq<char>)
    ensures
        encode_utf8(a) == encode_utf8(b) <==> a == b,
{
    encode_utf8_decode_utf8(a);
    encode_utf8_decode_utf8(b);
}

/// Whether `candidate` is the stored password; there is none (`None`) for an
/// unknown account.
///
/// The work depends on the length of the candidate alone: no length and no
/// difference ends it early, and an unknown account is compared like any other.
pub fn password_matches(stored: Option<&[u8]>, candidate: &[u8]) -> (r: bool)
    ensures
        r <==> stored is Some && stored->0@ == candidate@,
{
    let none: Vec<u8> = Vec::new();
    let reference = match stored {
        Some(s) => s,
        None => none.as_slice(),
    };
    let n: usize = reference.len();
    let m: usize = candidate.len();
    let mut diff: usize = n ^ m;
    assert((n ^ m) == 0 <==> n == m) by (bit_vector);
    let mut i: usize = 0;
    while i < candidate.len()
        invariant
            i <= candidate.len(),
            n == reference.len(),
            m == candidate.len(),
            diff == 0 <==> n == m && (forall|j: int|
                0 <= j < i ==> (if j < n {
                    reference@[j]
                } else {
                    0u8
                }) == #[trigger] candidate@[j]),
        decreases candidate.len() - i,
    {
        let a: u8 = if i < reference.len() {
            reference[i]
        } else {
            0
        };
        let b: u8 = candidate[i];
        let x: usize = (a ^ b) as usize;
        let before: usize = diff;
        diff = diff | x;
        assert((a ^ b) == 0 <==> a == b) by (bit_vector);
        assert((before | x) == 0 <==> before == 0 && x == 0) by (bit_vector);
        i += 1;
    }
    proof {
        if diff == 0 {
            assert(reference@ =~= candidate@);
        }
    }
    diff == 0 && stored.is_some()
}

// ---------------------------------------------------------------------------
// Laws
// ---------------------------------------------------------------------------
/// A pair is split at its first colon, so the password may hold colons.
pub proof fn law_password_may_hold_colons(user: Seq<char>, pass: Seq<char>)
    requires
        user.len() > 0,
        !user.contains(':'),
    ensures
        credential(user + seq![':'] + pass) == Some((user, pass)),
{
    lemma_split_at_first(user, ':', pass);
}

/// A text is split once at the first separator in it.
proof fn lemma_split_at_first(a: Seq<char>, sep: char, b: Seq<char>)
    requires
        !a.contains(sep),
    ensures
        split_once(a + seq![sep] + b, sep) == Some((a, b)),
{
    let s = a + seq![sep] + b;
    assert forall|i: int| 0 <= i < a.len() implies s[i] != sep by {
        assert(s[i] == a[i]);
    }
    lemma_position_is(s, sep, a.len() as int);
    assert(s.take(a.len() as int) =~= a);
    assert(s.skip(a.len() as int + 1) =~= b);
}

/// With authentication off, every request is permitted.
pub proof fn law_without_credentials_all_is_permitted(value: Option<Seq<char>>)
    ensures
        permits(Map::<Seq<char>, Seq<char>>::empty(), value),
{
}

/// The header value that carries a user name and a password, under a scheme
/// written in any case.
pub open spec fn basic_value(scheme: Seq<char>, user: Seq<char>, pass: Seq<char>) -> Seq<char> {
    scheme + seq![' '] + base64_encoded(encode_utf8(user + seq![':'] + pass))
}

/// A client that sends a user name and a password in the Basic scheme presents
/// exactly these, and is permitted if and only if the account has that password.
pub proof fn law_basic_credential_decides(
    creds: Map<Seq<char>, Seq<char>>,
    scheme: Seq<char>,
    user: Seq<char>,
    pass: Seq<char>,
)
    requires
        !creds.is_empty(),
        lowered(scheme) == "basic"@,
        !user.contains(':'),
    ensures
        presented(basic_value(scheme, user, pass)) == Some((user, pass)),
        permits(creds, Some(basic_value(scheme, user, pass))) <==> accepts(creds, user, pass),
{
    let text = user + seq![':'] + pass;
    let code = base64_encoded(encode_utf8(text));
    assert(!scheme.contains(' ')) by {
        reveal_strlit("basic");
        if scheme.contains(' ') {
            let i = choose|i: int| 0 <= i < scheme.len() && scheme[i] == ' ';
            assert(lowered(scheme)[i] == lower(' '));
            assert("basic"@[i] == ' ');
            assert(lowered(scheme).len() == 5);
            assert(i == 0 || i == 1 || i == 2 || i == 3 || i == 4);
        }
    }
    lemma_split_at_first(scheme, ' ', code);
    lemma_base64_is_trimmed(encode_utf8(text));
    law_base64_round_trip(encode_utf8(text));
    encode_utf8_valid_utf8(text);
    encode_utf8_decode_utf8(text);
    lemma_split_at_first(user, ':', pass);
}

/// With authentication on, a request without a well-formed Basic credential is
/// refused.
pub proof fn law_malformed_credential_is_refused(
    creds: Map<Seq<char>, Seq<char>>,
    value: Option<Seq<char>>,
)
    requires
        !creds.is_empty(),
        value matches Some(v) ==> presented(v) is None,
    ensures
        !permits(creds, value),
{
}

/// There is no white space in base64.
proof fn lemma_symbols_without_space(b: Seq<u8>)
    ensures
        forall|i: int|
            0 <= i < base64_symbols(b).len() ==> !is_space(#[trigger] base64_symbols(b)[i]),
    decreases b.len(),
{
    assert forall|d: int| 0 <= d < 64 implies !is_space(#[trigger] symbol(d)) by {}
    if b.len() >= 3 {
        let rest = base64_symbols(b.skip(3));
        lemma_symbols_without_space(b.skip(3));
        assert forall|i: int| 0 <= i < base64_symbols(b).len() implies !is_space(
            #[trigger] base64_symbols(b)[i],
        ) by {
            if i >= 4 {
                assert(base64_symbols(b)[i] == rest[i - 4]);
            }
        }
    }
}

/// Base64 is not changed by trimming.
proof fn lemma_base64_is_trimmed(b: Seq<u8>)
    ensures
        trimmed(base64_encoded(b)) == base64_encoded(b),
{
    lemma_symbols_without_space(b);
    let s = base64_encoded(b);
    assert forall|i: int| 0 <= i < s.len() implies !is_space(#[trigger] s[i]) by {
        if i < base64_symbols(b).len() {
            assert(s[i] == base64_symbols(b)[i]);
        } else {
            assert(s[i] == padding(b.len())[i - base64_symbols(b).len()]);
        }
    }
    lemma_trimmed(s);
}

/// What Basic authentication is for: a client that sends a user name and a password
/// gets access exactly where that account has that password.
pub proof fn law_access_goes_by_the_password(
    creds: Map<Seq<char>, Seq<char>>,
    scheme: Seq<char>,
    user: Seq<char>,
    pass: Seq<char>,
)
    requires
        exists|name: Seq<char>| creds.contains_key(name),
        lowered(scheme) == "basic"@,
        !user.contains(':'),
    ensures
        permits(
            creds,
            Some(scheme + seq![' '] + base64_encoded(encode_utf8(user + seq![':'] + pass))),
        ) <==> creds.contains_key(user) && creds[user] == pass,
        presented(
            scheme + seq![' '] + base64_encoded(encode_utf8(user + seq![':'] + pass)),
        ) == Some((user, pass)),
        accepts(creds, user, pass) <==> creds.contains_key(user) && creds[user] == pass,
{
    let name = choose|name: Seq<char>| creds.contains_key(name);
    assert(!creds.is_empty()) by {
        assert(creds.dom().contains(name));
        if creds.is_empty() {
            assert(creds.dom() =~= Set::empty());
        }
    }
    law_basic_credential_decides(creds, scheme, user, pass);
}

/// Access is never given without the password of an account: a value that gives
/// access names the Basic scheme and encodes the name of an account, a colon and its
/// password; and no access is given without a value.
pub proof fn law_access_needs_a_password(
    creds: Map<Seq<char>, Seq<char>>,
    value: Option<Seq<char>>,
) -> (r: (Seq<char>, Seq<char>, Seq<char>))
    requires
        exists|name: Seq<char>| creds.contains_key(name),
        permits(creds, value),
    ensures
        value is Some,
        lowered(r.0) == "basic"@,
        !r.0.contains(' '),
        creds.contains_key(r.2),
        !r.2.contains(':'),
        value->0 == r.0 + seq![' '] + r.1,
        base64_decoded(trimmed(r.1)) == Some(encode_utf8(r.2 + seq![':'] + creds[r.2])),
{
    let name = choose|name: Seq<char>| creds.contains_key(name);
    assert(!creds.is_empty()) by {
        assert(creds.dom().contains(name));
        if creds.is_empty() {
            assert(creds.dom() =~= Set::empty());
        }
    }
    let v = value->0;
    let parts = split_once(v, ' ')->0;
    lemma_split_parts(v, ' ');
    let b = base64_decoded(trimmed(parts.1))->0;
    decode_utf8_encode_utf8(b);
    let text = decode_utf8(b);
    lemma_split_parts(text, ':');
    let c = split_once(text, ':')->0;
    (parts.0, parts.1, c.0)
}

/// The two parts of a text that is split once, and that the first holds no separator.
proof fn lemma_split_parts(s: Seq<char>, sep: char)
    requires
        split_once(s, sep) is Some,
    ensures
        s == (split_once(s, sep)->0).0 + seq![sep] + (split_once(s, sep)->0).1,
        !(split_once(s, sep)->0).0.contains(sep),
{
    lemma_position(s, sep);
    let (a, b) = split_once(s, sep)->0;
    assert(s =~= a + seq![sep] + b);
    if a.contains(sep) {
        let i = choose|i: int| 0 <= i < a.len() && a[i] == sep;
        assert(s[i] == a[i]);
    }
}

/// A pair without a colon, or with nothing before the first one, is no credential.
pub proof fn law_pairs_without_a_user_are_refused(pair: Seq<char>)
    requires
        !pair.contains(':') || pair[0] == ':',
    ensures
        credential(pair) is None,
{
    lemma_position(pair, ':');
    if pair.contains(':') {
        assert(pair.len() > 0);
        assert(position(pair, ':') == 0);
    } else {
        lemma_position_is(pair, ':', pair.len() as int);
    }
}

/// How a file of credentials is read, line by line: a line that holds a pair, with
/// white space around it or not, gives its user the password; a blank line and a
/// comment give nothing; and the first line that is neither stops the reading.
pub proof fn law_credential_files(
    creds: Map<Seq<char>, Seq<char>>,
    lines: Seq<Seq<char>>,
    a: Seq<char>,
    user: Seq<char>,
    pass: Seq<char>,
    b: Seq<char>,
    other: Seq<char>,
)
    requires
        forall|i: int| 0 <= i < a.len() ==> is_space(#[trigger] a[i]),
        forall|i: int| 0 <= i < b.len() ==> is_space(#[trigger] b[i]),
        user.len() > 0,
        !user.contains(':'),
        !is_space(user[0]),
        user[0] != '#',
        pass.len() > 0 ==> !is_space(pass[pass.len() - 1]),
    ensures
        with_lines(creds, seq![]) == creds,
        with_lines(creds, lines.push(a + (user + seq![':'] + pass) + b)) == with_lines(
            creds,
            lines,
        ).insert(user, pass),
        with_lines(creds, lines.push(a)) == with_lines(creds, lines),
        with_lines(creds, lines.push(a + seq!['#'] + other)) == with_lines(creds, lines),
        first_bad(seq![]) == 0,
        first_bad(seq![a + (user + seq![':'] + pass) + b] + lines) == 1 + first_bad(lines),
        first_bad(seq![a] + lines) == 1 + first_bad(lines),
        first_bad(seq![a + seq!['#'] + other] + lines) == 1 + first_bad(lines),
        other.len() > 0 && !is_space(other[0]) && !is_space(other[other.len() - 1]) && other[0]
            != '#' && (!other.contains(':') || other[0] == ':') ==> first_bad(
            seq![a + other + b] + lines,
        ) == 0,
{
    let e = Seq::<char>::empty();
    let pair = user + seq![':'] + pass;
    let line = a + pair + b;
    assert(pair[0] == user[0]);
    assert(pair[pair.len() - 1] == (if pass.len() > 0 {
        pass[pass.len() - 1]
    } else {
        ':'
    }));
    law_trimming(a, pair, b);
    law_password_may_hold_colons(user, pass);
    law_trimming(a, e, e);
    assert(a + e + e =~= a);
    let comment = a + seq!['#'] + other;
    lemma_comment(a, other);
    assert(lines.push(line).drop_last() =~= lines);
    assert(lines.push(a).drop_last() =~= lines);
    assert(lines.push(comment).drop_last() =~= lines);
    assert((seq![line] + lines).drop_first() =~= lines);
    assert((seq![a] + lines).drop_first() =~= lines);
    assert((seq![comment] + lines).drop_first() =~= lines);
    assert((seq![line] + lines)[0] == line);
    assert((seq![a] + lines)[0] == a);
    assert((seq![comment] + lines)[0] == comment);
    if other.len() > 0 && !is_space(other[0]) && !is_space(other[other.len() - 1]) && other[0]
        != '#' && (!other.contains(':') || other[0] == ':') {
        law_trimming(a, other, b);
        law_pairs_without_a_user_are_refused(other);
        assert((seq![a + other + b] + lines)[0] == a + other + b);
    }
}

/// A line that begins with `#`, behind white space or not, is a comment.
proof fn lemma_comment(a: Seq<char>, other: Seq<char>)
    requires
        forall|i: int| 0 <= i < a.len() ==> is_space(#[trigger] a[i]),
    ensures
        is_comment(a + seq!['#'] + other),
{
    let s = seq!['#'] + other;
    lemma_trim_start(a, s);
    assert(a + seq!['#'] + other =~= a + s);
    assert(s[0] == '#');
    assert(trim_start(s) == s);
    lemma_trim_end_front(s);
}

/// However a client writes its credential, it is the decoded text that counts: with
/// white space around the base64 or in it, and with padding or without.
pub proof fn law_access_goes_by_what_is_decoded(
    creds: Map<Seq<char>, Seq<char>>,
    scheme: Seq<char>,
    code: Seq<char>,
    user: Seq<char>,
    pass: Seq<char>,
)
    requires
        exists|name: Seq<char>| creds.contains_key(name),
        lowered(scheme) == "basic"@,
        !user.contains(':'),
        base64_decoded(trimmed(code)) == Some(encode_utf8(user + seq![':'] + pass)),
    ensures
        permits(creds, Some(scheme + seq![' '] + code)) <==> creds.contains_key(user)
            && creds[user] == pass,
        presented(scheme + seq![' '] + code) == Some((user, pass)),
{
    let name = choose|name: Seq<char>| creds.contains_key(name);
    assert(!creds.is_empty()) by {
        assert(creds.dom().contains(name));
        if creds.is_empty() {
            assert(creds.dom() =~= Set::empty());
        }
    }
    let text = user + seq![':'] + pass;
    encode_utf8_valid_utf8(text);
    encode_utf8_decode_utf8(text);
    lemma_split_at_first(user, ':', pass);
    reveal_strlit("basic");
    assert(!scheme.contains(' ')) by {
        if scheme.contains(' ') {
            let i = choose|i: int| 0 <= i < scheme.len() && scheme[i] == ' ';
            assert(lowered(scheme)[i] == ' ');
            assert(lowered(scheme).len() == 5);
            assert(i == 0 || i == 1 || i == 2 || i == 3 || i == 4);
        }
    }
    lemma_split_at_first(scheme, ' ', code);
}

/// Who is let in: with accounts there, a request that carries a user name and a password
/// is permitted exactly where that account has that password, and its credential is
/// found right or wrong accordingly.
pub proof fn law_requests_are_authorized(
    auth: &Auth,
    req: &Request,
    scheme: Seq<char>,
    user: Seq<char>,
    pass: Seq<char>,
    permitted: bool,
    checked: Option<bool>,
)
    requires
        call_ensures(Auth::authorize, (auth, req), permitted),
        call_ensures(Auth::check_credential, (auth, req), checked),
        exists|name: Seq<char>| auth@.contains_key(name),
        lowered(scheme) == "basic"@,
        !user.contains(':'),
        req.value_of("authorization"@) == Some(
            scheme + seq![' '] + base64_encoded(encode_utf8(user + seq![':'] + pass)),
        ),
    ensures
        permitted <==> auth@.contains_key(user) && auth@[user] == pass,
        checked == Some(auth@.contains_key(user) && auth@[user] == pass),
{
    law_access_goes_by_the_password(auth@, scheme, user, pass);
}

/// A request without a credential is refused where there are accounts, and any request
/// is permitted where there are none.
pub proof fn law_requests_without_credential(auth: &Auth, req: &Request, permitted: bool)
    requires
        call_ensures(Auth::authorize, (auth, req), permitted),
    ensures
        (forall|name: Seq<char>| !auth@.contains_key(name)) ==> permitted,
        (exists|name: Seq<char>| auth@.contains_key(name)) && req.value_of(
            "authorization"@,
        ) is None ==> !permitted,
{
    if forall|name: Seq<char>| !auth@.contains_key(name) {
        assert(auth@.dom() =~= Set::empty());
        assert(auth@ =~= Map::empty());
    }
    if exists|name: Seq<char>| auth@.contains_key(name) {
        let name = choose|name: Seq<char>| auth@.contains_key(name);
        assert(auth@.dom().contains(name));
        if auth@.is_empty() {
            assert(auth@.dom() =~= Set::empty());
        }
    }
}

/// A password matches itself and nothing else, and without an account nothing matches.
pub proof fn law_passwords_match(stored: &[u8], candidate: &[u8], known: bool, unknown: bool)
    requires
        call_ensures(password_matches, (Some(stored), candidate), known),
        call_ensures(password_matches, (None::<&[u8]>, candidate), unknown),
    ensures
        known <==> stored@ == candidate@,
        !unknown,
{
}

} // verus!

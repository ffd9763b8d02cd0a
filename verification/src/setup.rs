//! What is made of the options before the first request: the credentials, and a
//! warning where nothing authenticates the clients.

use vstd::prelude::*;

use crate::args::{texts, Args, Options};
use crate::auth::{
    credential, first_bad, law_pairs_without_a_user_are_refused, law_password_may_hold_colons,
    with_lines, Auth, PAIR_EXPECTED,
};
use crate::number::decimal;
use crate::seqs::{lemma_split_plain, split};
use crate::text::{same, trimmed};

verus! {

/// `creds` with the credentials in `pairs` added in order, if each of them is one.
pub open spec fn with_pairs(
    creds: Map<Seq<char>, Seq<char>>,
    pairs: Seq<Seq<char>>,
) -> Option<Map<Seq<char>, Seq<char>>>
    decreases pairs.len(),
{
    if pairs.len() == 0 {
        Some(creds)
    } else {
        match with_pairs(creds, pairs.drop_last()) {
            Some(before) => match credential(pairs.last()) {
                Some(c) => Some(before.insert(c.0, c.1)),
                None => None,
            },
            None => None,
        }
    }
}

/// The credentials in the file at `path`, or what is wrong with it.
pub open spec fn file_credentials(path: Seq<char>, text: Seq<char>) -> Result<
    Map<Seq<char>, Seq<char>>,
    Seq<char>,
> {
    let lines = split(text, '\n');
    let n = first_bad(lines);
    if n == lines.len() {
        Ok(with_lines(Map::empty(), lines))
    } else {
        Err(path + ":"@ + decimal(n + 1) + ": "@ + PAIR_EXPECTED@)
    }
}

/// The credentials by the options, where `text` is what the file of credentials
/// holds, or what is wrong with them.
pub open spec fn all_credentials(o: Options, text: Option<Seq<char>>) -> Result<
    Map<Seq<char>, Seq<char>>,
    Seq<char>,
> {
    let from_file = match o.auth_file {
        Some(path) => match text {
            Some(t) => file_credentials(path, t),
            None => Ok(Map::empty()),
        },
        None => Ok(Map::empty()),
    };
    match from_file {
        Ok(creds) => match with_pairs(creds, o.auth) {
            Some(all) => Ok(all),
            None => Err("--auth: "@ + PAIR_EXPECTED@),
        },
        Err(e) => Err(e),
    }
}

/// A list of pairs with one that is no credential is refused.
proof fn lemma_bad_pair(creds: Map<Seq<char>, Seq<char>>, pairs: Seq<Seq<char>>, n: int)
    requires
        0 <= n <= pairs.len(),
        with_pairs(creds, pairs.take(n)) is None,
    ensures
        with_pairs(creds, pairs) is None,
    decreases pairs.len() - n,
{
    if n < pairs.len() {
        assert(pairs.take(n + 1).drop_last() =~= pairs.take(n));
        lemma_bad_pair(creds, pairs, n + 1);
    } else {
        assert(pairs.take(n) =~= pairs);
    }
}

/// The credentials by the options: those of the file, whose text is `auth_text`
/// where there is one, then those given one by one.
pub fn build_auth(args: &Args, auth_text: Option<&str>) -> (r: Result<Auth, String>)
    ensures
        match all_credentials(
            args@,
            match auth_text {
                Some(t) => Some(t@),
                None => None,
            },
        ) {
            Ok(creds) => r matches Ok(auth) && auth@ == creds,
            Err(e) => r matches Err(s) && s@ == e,
        },
{
    let mut auth = Auth::new();
    if let Some(path) = &args.auth_file {
        if let Some(text) = auth_text {
            let ghost lines = split(text@, '\n');
            assert(lines.take(lines.len() as int) =~= lines);
            match auth.load(text, path.as_str()) {
                Ok(_) => {},
                Err(e) => {
                    return Err(e);
                },
            }
        }
    }
    let ghost creds = auth@;
    let ghost all = texts(args.auth@);
    let mut i: usize = 0;
    assert(all.take(0) =~= seq![]);
    while i < args.auth.len()
        invariant
            i <= args.auth.len(),
            all == texts(args.auth@),
            with_pairs(creds, all.take(i as int)) == Some(auth@),
            all_credentials(
                args@,
                match auth_text {
                    Some(t) => Some(t@),
                    None => None,
                },
            ) == match with_pairs(creds, all) {
                Some(c) => Ok::<Map<Seq<char>, Seq<char>>, Seq<char>>(c),
                None => Err("--auth: "@ + PAIR_EXPECTED@),
            },
        decreases args.auth.len() - i,
    {
        let ghost front = all.take(i + 1);
        assert(front.drop_last() =~= all.take(i as int));
        assert(front.last() == args.auth@[i as int]@);
        match auth.add_pair(args.auth[i].as_str()) {
            Ok(_) => {},
            Err(msg) => {
                proof {
                    lemma_bad_pair(creds, all, i + 1);
                }
                let mut e = "--auth: ".to_string();
                e.append(msg);
                return Err(e);
            },
        }
        i += 1;
    }
    assert(all.take(i as int) =~= all);
    Ok(auth)
}

/// What is logged where nothing authenticates the clients. A listening server has
/// no client certificates; else `client_dn` names the subject of one that was
/// verified, if one was.
pub fn unauthenticated_warning(enabled: bool, listen: Option<&str>, client_dn: &str) -> (r: Option<
    String,
>)
    ensures
        match (enabled, listen) {
            (true, _) => r is None,
            (false, Some(addr)) => r matches Some(w) && w@ == "WARNING: serving unauthenticated on "@
                + addr@ + " — no Basic auth"@,
            (false, None) => if client_dn@.len() == 0 {
                r matches Some(w) && w@
                    == "WARNING: serving unauthenticated — no client cert (SSL_CLIENT_DN) and no Basic auth"@
            } else {
                r is None
            },
        },
{
    if enabled {
        return None;
    }
    if let Some(addr) = listen {
        let mut w = "WARNING: serving unauthenticated on ".to_string();
        w.append(addr);
        w.append(" — no Basic auth");
        return Some(w);
    }
    proof {
        reveal_strlit("");
        assert(client_dn@.len() == 0 <==> client_dn@ =~= ""@);
    }
    if same(client_dn, "") {
        Some(
            "WARNING: serving unauthenticated — no client cert (SSL_CLIENT_DN) and no Basic auth".to_string(),
        )
    } else {
        None
    }
}

// ---------------------------------------------------------------------------
// Laws
// ---------------------------------------------------------------------------
/// One rule for all credentials: a pair gives the same as a line of a file and on
/// its own.
pub proof fn law_file_and_inline_credentials_agree(path: Seq<char>, pair: Seq<char>)
    requires
        credential(pair) is Some,
        trimmed(pair) == pair,
        pair[0] != '#',
        !pair.contains('\n'),
    ensures
        with_pairs(Map::empty(), seq![pair]) is Some,
        file_credentials(path, pair) == Ok::<Map<Seq<char>, Seq<char>>, Seq<char>>(
            with_pairs(Map::empty(), seq![pair])->0,
        ),
{
    let lines = seq![pair];
    lemma_split_plain(pair, '\n');
    assert(split(pair, '\n') =~= lines);
    assert(lines.drop_first() =~= seq![]);
    assert(lines.drop_last() =~= seq![]);
    assert(first_bad(lines.drop_first()) == 0);
    assert(first_bad(lines) == 1);
    assert(with_lines(Map::empty(), lines.drop_last()) == Map::<Seq<char>, Seq<char>>::empty());
    assert(with_pairs(Map::empty(), lines.drop_last()) == Some(
        Map::<Seq<char>, Seq<char>>::empty(),
    ));
}

/// How credentials that are given one by one add up: each gives its user the password,
/// a later one in place of an earlier; and one that is none spoils all.
pub proof fn law_pairs_add_up(
    creds: Map<Seq<char>, Seq<char>>,
    pairs: Seq<Seq<char>>,
    user: Seq<char>,
    pass: Seq<char>,
    bad: Seq<char>,
)
    requires
        user.len() > 0,
        !user.contains(':'),
        !bad.contains(':') || bad[0] == ':',
    ensures
        with_pairs(creds, seq![]) == Some(creds),
        with_pairs(creds, pairs) matches Some(before) ==> with_pairs(
            creds,
            pairs.push(user + seq![':'] + pass),
        ) == Some(before.insert(user, pass)),
        with_pairs(creds, pairs) is None ==> with_pairs(
            creds,
            pairs.push(user + seq![':'] + pass),
        ) is None,
        with_pairs(creds, pairs.push(bad)) is None,
{
    law_password_may_hold_colons(user, pass);
    law_pairs_without_a_user_are_refused(bad);
    assert(pairs.push(user + seq![':'] + pass).drop_last() =~= pairs);
    assert(pairs.push(bad).drop_last() =~= pairs);
}

/// The first line of a file of credentials that is wrong is named, counted from 1, and
/// no credentials come of the file; else all of its lines count.
pub proof fn law_wrong_lines_are_named(path: Seq<char>, text: Seq<char>)
    ensures
        ({
            let lines = split(text, '\n');
            let n = first_bad(lines);
            &&& n < lines.len() ==> file_credentials(path, text) == Err::<
                Map<Seq<char>, Seq<char>>,
                Seq<char>,
            >(path + seq![':'] + decimal(n + 1) + seq![':', ' '] + "expected 'username:password'"@)
            &&& n == lines.len() ==> file_credentials(path, text) == Ok::<
                Map<Seq<char>, Seq<char>>,
                Seq<char>,
            >(with_lines(Map::empty(), lines))
        }),
{
    reveal_strlit(":");
    reveal_strlit(": ");
    assert(":"@ =~= seq![':']);
    assert(": "@ =~= seq![':', ' ']);
}

/// All credentials are those of the file, if one is named, and those given one by one
/// on top of them.
pub proof fn law_credentials_of_both_kinds(
    o: Options,
    path: Seq<char>,
    text: Seq<char>,
    creds: Map<Seq<char>, Seq<char>>,
)
    ensures
        o.auth_file is None && with_pairs(Map::empty(), o.auth) == Some(creds) ==> all_credentials(
            o,
            Some(text),
        ) == Ok::<Map<Seq<char>, Seq<char>>, Seq<char>>(creds),
        o.auth_file == Some(path) && file_credentials(path, text) is Ok && with_pairs(
            file_credentials(path, text)->Ok_0,
            o.auth,
        ) == Some(creds) ==> all_credentials(o, Some(text)) == Ok::<
            Map<Seq<char>, Seq<char>>,
            Seq<char>,
        >(creds),
        o.auth_file == Some(path) && file_credentials(path, text) is Err ==> all_credentials(
            o,
            Some(text),
        ) == file_credentials(path, text),
        o.auth_file is None && with_pairs(Map::empty(), o.auth) is None ==> all_credentials(
            o,
            None,
        ) == Err::<Map<Seq<char>, Seq<char>>, Seq<char>>(
            "--auth: "@ + "expected 'username:password'"@,
        ),
{
}

/// When a warning is logged: where no credentials are asked for, and the server listens
/// on a socket or has no verified client certificate.
pub proof fn law_when_a_warning_is_logged(
    enabled: bool,
    listen: Option<&str>,
    client_dn: &str,
    r: Option<String>,
)
    requires
        call_ensures(unauthenticated_warning, (enabled, listen, client_dn), r),
    ensures
        r is Some <==> !enabled && (listen is Some || client_dn@.len() == 0),
        r matches Some(w) ==> (listen matches Some(addr) ==> w@
            == "WARNING: serving unauthenticated on "@ + addr@ + " — no Basic auth"@),
{
}

} // verus!

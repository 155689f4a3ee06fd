//! Users and passwords from a file with a line `user:{SHA}hash` for each user.

use super::AuthResponse;
use super::AuthResponseView;
use crate::messages::ReturnCode;
use crate::text;
use crate::text::lines;
use crate::text::split;
use crate::text::strip_prefix;
use crate::text::text_equal;
use base64::Engine;
use sha1::Digest;
use vstd::hash_map::StringHashMap;
use vstd::prelude::*;
use vstd::utf8::*;

verus! {

/// The SHA-1 digest of some bytes.
pub uninterp spec fn sha1_of(bytes: Seq<u8>) -> Seq<u8>;

/// The character for six bits in the standard alphabet of base64.
pub open spec fn base64_digit(n: int) -> char {
    if n < 26 {
        (0x41 + n) as char
    } else if n < 52 {
        (0x61 + n - 26) as char
    } else if n < 62 {
        (0x30 + n - 52) as char
    } else if n == 62 {
        '+'
    } else {
        '/'
    }
}

/// The base64 form of some bytes: four characters of six bits each for three bytes, where
/// `=` stands for those that the last bytes do not fill.
pub open spec fn base64_of(bytes: Seq<u8>) -> Seq<char>
    decreases bytes.len(),
{
    if bytes.len() == 0 {
        seq![]
    } else {
        let a = bytes[0] as int;
        let b = if bytes.len() > 1 {
            bytes[1] as int
        } else {
            0
        };
        let c = if bytes.len() > 2 {
            bytes[2] as int
        } else {
            0
        };
        seq![
            base64_digit(a / 4),
            base64_digit(a % 4 * 16 + b / 16),
            if bytes.len() > 1 {
                base64_digit(b % 16 * 4 + c / 64)
            } else {
                '='
            },
            if bytes.len() > 2 {
                base64_digit(c % 64)
            } else {
                '='
            },
        ] + if bytes.len() > 3 {
            base64_of(bytes.skip(3))
        } else {
            seq![]
        }
    }
}

/// The SHA-1 digest of some bytes.
///
/// Calls `sha1::Sha1::digest`. The digest has 20 bytes and depends on the bytes alone. It
/// counts their bits in 64 bits, which must not overflow.
#[verifier::external_body]
pub(crate) fn sha1_digest(bytes: &[u8]) -> (r: Vec<u8>)
    requires
        bytes@.len() <= 0x1fff_ffff_ffff_ffff,
    ensures
        r@ == sha1_of(bytes@),
        r@.len() == 20,
{
    sha1::Sha1::digest(bytes).to_vec()
}

/// The base64 form of some bytes.
///
/// Calls the `encode` of `base64::engine::general_purpose::STANDARD`, which uses the
/// standard alphabet and pads the last four characters. It panics where there are more
/// characters than a string can hold.
#[verifier::external_body]
pub(crate) fn base64_encode(bytes: &[u8]) -> (r: String)
    requires
        (bytes@.len() + 2) / 3 * 4 <= isize::MAX,
    ensures
        r@ == base64_of(bytes@),
{
    base64::engine::general_purpose::STANDARD.encode(bytes)
}

/// The hash of a password as it stands in the file.
pub open spec fn password_hash(password: Seq<char>) -> Seq<char> {
    base64_of(sha1_of(encode_utf8(password)))
}

/// Whether a password is short enough for its bits to be counted.
pub open spec fn hashable(password: Seq<char>) -> bool {
    encode_utf8(password).len() <= 0x1fff_ffff_ffff_ffff
}

/// The hash of a password.
fn hash_password(password: &str) -> (r: String)
    requires
        hashable(password@),
    ensures
        r@ == password_hash(password@),
{
    let digest = sha1_digest(password.as_bytes());
    base64_encode(digest.as_slice())
}

/// Whether a password has the given hash.
pub fn check_sha_password(password: &str, hash: &str) -> (r: bool)
    requires
        hashable(password@),
    ensures
        r == (password_hash(password@) == hash@),
{
    text_equal(&hash_password(password), hash)
}

/// What a user whose password has the hash `computed` is answered, with the entry that
/// the file has for the user.
pub open spec fn entry_code(entry: Option<Seq<char>>, computed: Seq<char>) -> ReturnCode {
    match entry {
        Some(e) => if e == "{SHA}"@ + computed {
            ReturnCode::Accepted
        } else {
            ReturnCode::BadUsernameOrPassword
        },
        None => ReturnCode::BadUsernameOrPassword,
    }
}

/// What a user is answered whose password has the hash `computed`. An entry that is no
/// SHA-1 hash lets nobody in.
pub fn check_entry(entry: Option<&String>, computed: &str) -> (r: ReturnCode)
    ensures
        r == entry_code(
            match entry {
                Some(e) => Some(e@),
                None => None,
            },
            computed@,
        ),
{
    match entry {
        Some(e) => {
            let ghost prefix = "{SHA}"@;
            match strip_prefix(e, "{SHA}") {
                Some(hash) => {
                    proof {
                        assert(e@ =~= prefix + hash@) by {
                            assert(e@ =~= e@.take(prefix.len() as int) + e@.skip(
                                prefix.len() as int,
                            ));
                        }
                        if e@ == prefix + computed@ {
                            assert(hash@ =~= (prefix + computed@).skip(prefix.len() as int));
                            assert(hash@ =~= computed@);
                        }
                    }
                    if text_equal(computed, &hash) {
                        ReturnCode::Accepted
                    } else {
                        ReturnCode::BadUsernameOrPassword
                    }
                },
                None => {
                    proof {
                        if e@ == prefix + computed@ {
                            assert(e@.take(prefix.len() as int) =~= prefix);
                        }
                    }
                    ReturnCode::BadUsernameOrPassword
                },
            }
        },
        None => ReturnCode::BadUsernameOrPassword,
    }
}

/// The user and the hash in a line: what stands before and behind its only colon.
pub open spec fn parse_line(line: Seq<char>) -> Option<(Seq<char>, Seq<char>)> {
    let t = text::split_on(line, ':');
    if t.len() == 2 {
        Some((t[0], t[1]))
    } else {
        None
    }
}

/// The entries after some lines; of two for a user the later one counts.
pub open spec fn with_lines(users: Map<Seq<char>, Seq<char>>, lines: Seq<Seq<char>>) -> Map<
    Seq<char>,
    Seq<char>,
>
    decreases lines.len(),
{
    if lines.len() == 0 {
        users
    } else {
        let before = with_lines(users, lines.drop_last());
        match parse_line(lines.last()) {
            Some((user, hash)) => before.insert(user, hash),
            None => before,
        }
    }
}

/// The lines that hold no entry.
pub open spec fn faulty_lines(lines: Seq<Seq<char>>) -> Seq<Seq<char>> {
    lines.filter(|line: Seq<char>| parse_line(line) is None)
}

/// The users of a password file.
pub struct PasswordAuth {
    users: StringHashMap<String>,
}

impl View for PasswordAuth {
    type V = Map<Seq<char>, Seq<char>>;

    closed spec fn view(&self) -> Map<Seq<char>, Seq<char>> {
        self.users@.map_values(|s: String| s@)
    }
}

impl PasswordAuth {
    /// No users.
    pub fn new() -> (r: PasswordAuth)
        ensures
            r@ == Map::<Seq<char>, Seq<char>>::empty(),
    {
        let r = PasswordAuth { users: StringHashMap::new() };
        assert(r@ =~= Map::<Seq<char>, Seq<char>>::empty());
        r
    }

    /// Adds the users of a password file, given by its contents; the lines that hold no
    /// entry are returned.
    pub fn load_password_file(&mut self, content: &str) -> (faulty: Vec<String>)
        ensures
            final(self)@ == with_lines(old(self)@, text::lines_of(content@)),
            text::texts(faulty@) == faulty_lines(text::lines_of(content@)),
    {
        let users = lines(content);
        let ghost list = text::texts(users@);
        let ghost before = self@;
        let ghost bad = |line: Seq<char>| parse_line(line) is None;
        let mut faulty: Vec<String> = Vec::new();
        let mut i: usize = 0;
        proof {
            assert(list.take(0) =~= seq![]);
            reveal(Seq::filter);
            assert(text::texts(faulty@) =~= list.take(0).filter(bad));
        }
        while i < users.len()
            invariant
                i <= users@.len(),
                list == text::texts(users@),
                bad == |line: Seq<char>| parse_line(line) is None,
                self@ == with_lines(before, list.take(i as int)),
                text::texts(faulty@) == list.take(i as int).filter(bad),
            decreases users@.len() - i,
        {
            let ghost lost = text::texts(faulty@);
            let ghost entries = self@;
            let t = split(&users[i], ':');
            proof {
                assert(list.take(i + 1).drop_last() =~= list.take(i as int));
                assert(list.take(i + 1).last() == list[i as int]);
                assert(text::texts(t@) == text::split_on(list[i as int], ':'));
                reveal(Seq::filter);
            }
            if t.len() != 2 {
                faulty.push(users[i].clone());
                assert(text::texts(faulty@) =~= lost.push(list[i as int]));
            } else {
                let user = t[0].clone();
                let hash = t[1].clone();
                assert(text::texts(t@)[0] == user@ && text::texts(t@)[1] == hash@);
                self.users.insert(user, hash);
                assert(self@ =~= entries.insert(user@, hash@));
            }
            i += 1;
        }
        assert(list.take(i as int) =~= list);
        faulty
    }

    /// What a user with a password is answered.
    pub fn check_password_internal(&self, user: &str, password: &str) -> (r: ReturnCode)
        requires
            hashable(password@),
        ensures
            r == user_code(self@, user@, password@),
    {
        let computed = hash_password(password);
        check_entry(self.users.get(user), &computed)
    }

    /// What a user with a password is answered; all users are without a tenant.
    pub fn check_password(&self, user: &str, password: &str) -> (r: AuthResponse)
        requires
            hashable(password@),
        ensures
            r@ == (AuthResponseView {
                return_code: user_code(self@, user@, password@),
                tenant: None,
            }),
    {
        AuthResponse { return_code: self.check_password_internal(user, password), tenant: None }
    }
}

/// Whether a line holds an entry for a user.
pub open spec fn is_entry_of(line: Seq<char>, user: Seq<char>) -> bool {
    parse_line(line) matches Some((u, _)) && u == user
}

/// The last line for a user counts.
proof fn lemma_last_line(
    users: Map<Seq<char>, Seq<char>>,
    lines: Seq<Seq<char>>,
    i: int,
    user: Seq<char>,
    entry: Seq<char>,
)
    requires
        0 <= i < lines.len(),
        parse_line(lines[i]) == Some((user, entry)),
        forall|j: int| i < j < lines.len() ==> !is_entry_of(#[trigger] lines[j], user),
    ensures
        with_lines(users, lines).dom().contains(user),
        with_lines(users, lines)[user] == entry,
    decreases lines.len(),
{
    let before = lines.drop_last();
    if i < lines.len() - 1 {
        assert(!is_entry_of(lines[lines.len() - 1], user));
        assert forall|j: int| i < j < before.len() implies !is_entry_of(
            #[trigger] before[j],
            user,
        ) by {
            assert(before[j] == lines[j]);
        }
        lemma_last_line(users, before, i, user, entry);
    }
}

/// Lines that hold no entry for a user change nothing for that user.
proof fn lemma_other_lines(
    users: Map<Seq<char>, Seq<char>>,
    lines: Seq<Seq<char>>,
    user: Seq<char>,
)
    requires
        forall|j: int| 0 <= j < lines.len() ==> !is_entry_of(#[trigger] lines[j], user),
    ensures
        with_lines(users, lines).dom().contains(user) == users.dom().contains(user),
        users.dom().contains(user) ==> with_lines(users, lines)[user] == users[user],
    decreases lines.len(),
{
    if lines.len() > 0 {
        let before = lines.drop_last();
        assert(!is_entry_of(lines[lines.len() - 1], user));
        assert forall|j: int| 0 <= j < before.len() implies !is_entry_of(
            #[trigger] before[j],
            user,
        ) by {
            assert(before[j] == lines[j]);
        }
        lemma_other_lines(users, before, user);
    }
}

/// What a user with a password is answered by the users that are known.
pub open spec fn user_code(
    users: Map<Seq<char>, Seq<char>>,
    user: Seq<char>,
    password: Seq<char>,
) -> ReturnCode {
    entry_code(
        if users.dom().contains(user) {
            Some(users[user])
        } else {
            None
        },
        password_hash(password),
    )
}

/// A user with an entry in some line, and in no later one, is let in exactly with a
/// password that has the hash given there, whoever was known before.
pub proof fn law_accepted(
    known: Map<Seq<char>, Seq<char>>,
    lines: Seq<Seq<char>>,
    i: int,
    user: Seq<char>,
    hash: Seq<char>,
    password: Seq<char>,
)
    requires
        !user.contains(':'),
        !hash.contains(':'),
        0 <= i < lines.len(),
        lines[i] == user + seq![':'] + ("{SHA}"@ + hash),
        forall|j: int| i < j < lines.len() ==> !is_entry_of(#[trigger] lines[j], user),
    ensures
        user_code(with_lines(known, lines), user, password) == ReturnCode::Accepted
            <==> password_hash(password) == hash,
{
    let prefix = "{SHA}"@;
    reveal_strlit("{SHA}");
    let entry = prefix + hash;
    assert(!entry.contains(':')) by {
        assert forall|k: int| 0 <= k < entry.len() implies entry[k] != ':' by {
            if k >= prefix.len() {
                assert(hash[k - prefix.len()] == entry[k]);
                assert(hash.contains(hash[k - prefix.len()]));
            }
        }
    }
    text::lemma_split_pair(user, entry, ':');
    lemma_last_line(known, lines, i, user, entry);
    if prefix + password_hash(password) == entry {
        assert(password_hash(password) =~= entry.skip(prefix.len() as int));
        assert(hash =~= entry.skip(prefix.len() as int));
    }
}

/// A user that no line names is not let in with any password, nor is one whose last entry
/// is no SHA-1 hash; and what a user is answered does not depend on the lines of others.
pub proof fn law_not_accepted(
    known: Map<Seq<char>, Seq<char>>,
    lines: Seq<Seq<char>>,
    user: Seq<char>,
    password: Seq<char>,
)
    ensures
        (forall|j: int| 0 <= j < lines.len() ==> !is_entry_of(#[trigger] lines[j], user))
            ==> user_code(with_lines(known, lines), user, password) == user_code(
            known,
            user,
            password,
        ),
        !known.dom().contains(user) ==> user_code(known, user, password)
            == ReturnCode::BadUsernameOrPassword,
        known.dom().contains(user) && !("{SHA}"@.is_prefix_of(known[user])) ==> user_code(
            known,
            user,
            password,
        ) == ReturnCode::BadUsernameOrPassword,
{
    if forall|j: int| 0 <= j < lines.len() ==> !is_entry_of(#[trigger] lines[j], user) {
        lemma_other_lines(known, lines, user);
    }
    let prefix = "{SHA}"@;
    let entry = prefix + password_hash(password);
    assert(entry.take(prefix.len() as int) =~= prefix);
    assert(prefix.is_prefix_of(entry));
}

/// A user with an entry in some line of a password file, and in no later one, is let in
/// exactly with a password whose SHA-1 digest of its UTF-8 bytes has, in base64, the text
/// that the entry has behind `{SHA}`.
pub proof fn law_password_file(
    known: Map<Seq<char>, Seq<char>>,
    raw: Seq<Seq<char>>,
    i: int,
    user: Seq<char>,
    hash: Seq<char>,
    password: Seq<char>,
)
    requires
        !user.contains(':'),
        !hash.contains(':'),
        0 <= i < raw.len(),
        raw[i] == user + seq![':'] + ("{SHA}"@ + hash),
        forall|j: int| 0 <= j < raw.len() ==> !(#[trigger] raw[j]).contains('\n'),
        forall|j: int|
            0 <= j < raw.len() ==> !((#[trigger] raw[j]).len() > 0 && raw[j].last() == '\r'),
        forall|j: int| i < j < raw.len() ==> !is_entry_of(#[trigger] raw[j], user),
    ensures
        ({
            let none: Seq<char> = seq![];
            let content = text::join_with(raw.push(none), '\n');
            user_code(with_lines(known, text::lines_of(content)), user, password)
                == ReturnCode::Accepted <==> base64_of(sha1_of(encode_utf8(password))) == hash
        }),
{
    let none: Seq<char> = seq![];
    let lines = text::lines_of(text::join_with(raw.push(none), '\n'));
    text::law_lines(raw, none);
    assert forall|j: int| 0 <= j < raw.len() implies #[trigger] lines[j] == raw[j] by {
        if lines[j].push('\r') == raw[j] {
            assert(lines[j].push('\r').last() == '\r');
        }
    }
    assert(lines =~= raw);
    law_accepted(known, lines, i, user, hash, password);
}

/// A line is refused exactly if it does not have just one colon.
pub proof fn law_faulty_lines(lines: Seq<Seq<char>>, line: Seq<char>)
    ensures
        faulty_lines(lines).contains(line) <==> lines.contains(line) && text::split_on(
            line,
            ':',
        ).len() != 2,
{
    let bad = |l: Seq<char>| parse_line(l) is None;
    if lines.contains(line) && bad(line) {
        let i = choose|i: int| 0 <= i < lines.len() && lines[i] == line;
        lines.lemma_filter_contains(bad, i);
    }
    if lines.filter(bad).contains(line) {
        let i = choose|i: int| 0 <= i < lines.filter(bad).len() && lines.filter(bad)[i] == line;
        lines.lemma_filter_pred(bad, i);
        lines.lemma_filter_contains_rev(bad, line);
    }
}

} // verus!

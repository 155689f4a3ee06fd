//! Settings that are kept in a vault.

use crate::text;
use crate::text::appended;
use crate::text::join;
use crate::text::split;
use crate::text::strip_prefix;
use crate::text::trim_quotes;
use crate::text::unquote;
use vstd::prelude::*;

verus! {

/// A JSON value.
#[verifier::external_type_specification]
#[verifier::external_body]
pub struct ExValue(serde_json::Value);

/// The texts of a JSON value and of all that is in it, by the names that lead there from
/// object to object; the value itself stands under no name.
pub uninterp spec fn json_texts(v: serde_json::Value) -> Map<Seq<Seq<char>>, Seq<char>>;

/// The part of such a map below a name.
pub open spec fn below_name(m: Map<Seq<Seq<char>>, Seq<char>>, name: Seq<char>) -> Map<
    Seq<Seq<char>>,
    Seq<char>,
> {
    Map::new(
        |p: Seq<Seq<char>>| m.dom().contains(seq![name] + p),
        |p: Seq<Seq<char>>| m[seq![name] + p],
    )
}

/// The member of an object.
///
/// Calls `serde_json::Value::get` with a name: the value under it, `None` where there is
/// none or the value is no object. The texts of the value are those that stand below the
/// name, its own text among them; where there is no value nothing stands there.
#[verifier::external_body]
pub(crate) fn json_get<'a>(v: &'a serde_json::Value, name: &str) -> (r: Option<
    &'a serde_json::Value,
>)
    ensures
        match r {
            Some(c) => {
                &&& json_texts(*c) == below_name(json_texts(*v), name@)
                &&& json_texts(*c).dom().contains(seq![])
            },
            None => below_name(json_texts(*v), name@) == Map::<Seq<Seq<char>>, Seq<char>>::empty(),
        },
{
    v.get(name)
}

/// The text of a value.
///
/// Calls the `to_string` of `serde_json::Value`, which writes the value as JSON.
#[verifier::external_body]
pub(crate) fn json_text(v: &serde_json::Value) -> (r: String)
    ensures
        r@ == json_texts(*v)[seq![]],
{
    v.to_string()
}

/// The text under names that lead from object to object.
pub open spec fn text_under(v: serde_json::Value, path: Seq<Seq<char>>) -> Option<Seq<char>> {
    if json_texts(v).dom().contains(path) {
        Some(json_texts(v)[path])
    } else {
        None
    }
}

/// Below a name, what stands under a path is what stands under the name and the path.
proof fn lemma_below(m: Map<Seq<Seq<char>>, Seq<char>>, name: Seq<char>, path: Seq<Seq<char>>)
    ensures
        below_name(m, name).dom().contains(path) == m.dom().contains(seq![name] + path),
        m.dom().contains(seq![name] + path) ==> below_name(m, name)[path] == m[seq![name] + path],
{
}

/// The request that logs in to the vault.
pub struct LoginRequest {
    pub url: String,
    pub body: String,
}

/// The request that logs a role in to the vault at an address.
pub fn vault_login_request(vault_addr: &str, vault_roleid: &str) -> (r: LoginRequest)
    ensures
        r.url@ == vault_addr@ + "/v1/auth/approle/login"@,
        r.body@ == "{\"role_id\":\""@ + vault_roleid@ + "\"}"@,
{
    LoginRequest {
        url: appended(vault_addr, "/v1/auth/approle/login"),
        body: appended(&appended("{\"role_id\":\"", vault_roleid), "\"}"),
    }
}

/// The token in the answer to a login, in JSON; `None` where there is none.
pub fn vault_login_token(v: &serde_json::Value) -> (r: Option<String>)
    ensures
        crate::broker::optional_text(r) == text_under(*v, seq!["auth"@, "client_token"@]),
{
    proof {
        let m = json_texts(*v);
        let none: Seq<Seq<char>> = seq![];
        lemma_below(m, "auth"@, seq!["client_token"@]);
        lemma_below(below_name(m, "auth"@), "client_token"@, none);
        assert(seq!["client_token"@] + none =~= seq!["client_token"@]);
        assert(seq!["auth"@] + seq!["client_token"@] =~= seq!["auth"@, "client_token"@]);
    }
    match json_get(v, "auth") {
        Some(auth) => match json_get(auth, "client_token") {
            Some(token) => Some(json_text(token)),
            None => None,
        },
        None => None,
    }
}

/// The outcome of a login.
pub open spec fn login_outcome(token: Option<Seq<char>>) -> Result<Seq<char>, Seq<char>> {
    match token {
        Some(t) => Ok(t),
        None => Err("Error logging into vault"@),
    }
}

/// The outcome of a login whose answer, if it is JSON, is given.
pub fn vault_login(answer: Option<&serde_json::Value>) -> (r: Result<String, &'static str>)
    ensures
        ({
            let token = match answer {
                Some(v) => text_under(*v, seq!["auth"@, "client_token"@]),
                None => None,
            };
            match r {
                Ok(t) => login_outcome(token) == Ok::<Seq<char>, Seq<char>>(t@),
                Err(e) => login_outcome(token) == Err::<Seq<char>, Seq<char>>(e@),
            }
        }),
{
    match answer {
        Some(v) => match vault_login_token(v) {
            Some(t) => Ok(t),
            None => Err("Error logging into vault"),
        },
        None => Err("Error logging into vault"),
    }
}

/// The address of a secret in the vault.
pub fn vault_kv_url(vault_addr: &str, secret: &str) -> (r: String)
    ensures
        r@ == vault_addr@ + "/v1/secret/data/"@ + secret@,
{
    appended(&appended(vault_addr, "/v1/secret/data/"), secret)
}

/// The value of a key in the answer for a secret, in JSON.
pub fn vault_kv_text(v: &serde_json::Value, key: &str) -> (r: Option<String>)
    ensures
        crate::broker::optional_text(r) == text_under(*v, seq!["data"@, "data"@, key@]),
{
    proof {
        let m = json_texts(*v);
        let none: Seq<Seq<char>> = seq![];
        let inner = below_name(m, "data"@);
        lemma_below(m, "data"@, seq!["data"@, key@]);
        lemma_below(inner, "data"@, seq![key@]);
        lemma_below(below_name(inner, "data"@), key@, none);
        assert(seq![key@] + none =~= seq![key@]);
        assert(seq!["data"@] + seq![key@] =~= seq!["data"@, key@]);
        assert(seq!["data"@] + seq!["data"@, key@] =~= seq!["data"@, "data"@, key@]);
    }
    match json_get(v, "data") {
        Some(response) => match json_get(response, "data") {
            Some(data) => match json_get(data, key) {
                Some(value) => Some(json_text(value)),
                None => None,
            },
            None => None,
        },
        None => None,
    }
}

/// The message for a secret that could not be had.
pub open spec fn kv_fault(secret: Seq<char>, key: Seq<char>) -> Seq<char> {
    "Error fetching secret "@ + secret + " key "@ + key
}

/// The value that the vault gave for a key: what its JSON text quotes. `None` stands for
/// a value that is no string.
pub open spec fn kv_outcome(
    secret: Seq<char>,
    key: Seq<char>,
    json: Option<Seq<char>>,
) -> Result<Option<Seq<char>>, Seq<char>> {
    match json {
        Some(t) => Ok(text::unquoted(t)),
        None => Err(kv_fault(secret, key)),
    }
}

/// The value that the vault gave for a key, from its JSON text if there was one.
pub fn vault_kv_value(secret: &str, key: &str, json: Option<String>) -> (r: Result<
    Option<String>,
    String,
>)
    ensures
        match r {
            Ok(v) => kv_outcome(secret@, key@, crate::broker::optional_text(json)) == Ok::<
                Option<Seq<char>>,
                Seq<char>,
            >(crate::broker::optional_text(v)),
            Err(e) => kv_outcome(secret@, key@, crate::broker::optional_text(json)) == Err::<
                Option<Seq<char>>,
                Seq<char>,
            >(e@),
        },
{
    match json {
        Some(t) => Ok(unquote(&t)),
        None => Err(
            appended(&appended(&appended("Error fetching secret ", secret), " key "), key),
        ),
    }
}

/// Where a secret is kept: the path of the secret, and the key in it.
pub open spec fn secret_path(secret: Seq<char>) -> (Seq<char>, Seq<char>) {
    let items = text::split_on(secret, '/');
    (text::join_with(items.drop_last(), '/'), items.last())
}

/// Where a secret is kept: the path of the secret, and the key in it.
pub fn secret_location(secret: &str) -> (r: (String, String))
    ensures
        (r.0@, r.1@) == secret_path(secret@),
{
    let items = split(secret, '/');
    let n = items.len() - 1;
    let ghost all = text::texts(items@);
    assert(all.take(n as int) =~= all.drop_last());
    assert(all.last() == items@[n as int]@);
    (join(&items, n, '/'), items[n].clone())
}

/// What is needed to get a secret.
pub struct SecretPlan {
    pub vault_addr: String,
    pub login: LoginRequest,
    pub path: String,
    pub key: String,
}

/// What is needed to get a secret from the vault that the environment names.
pub fn get_secret(
    vault_addr: Option<String>,
    vault_roleid: Option<String>,
    secret: &str,
) -> (r: Result<SecretPlan, &'static str>)
    ensures
        match (vault_addr, vault_roleid) {
            (Some(addr), Some(role)) => r matches Ok(plan) && {
                &&& plan.vault_addr@ == addr@
                &&& plan.login.url@ == addr@ + "/v1/auth/approle/login"@
                &&& plan.login.body@ == "{\"role_id\":\""@ + role@ + "\"}"@
                &&& (plan.path@, plan.key@) == secret_path(secret@)
            },
            (Some(_), None) => r matches Err(e) && e@ == "VAULT_ROLEID not set"@,
            (None, _) => r matches Err(e) && e@ == "VAULT_ADDR not set"@,
        },
{
    match vault_addr {
        Some(vault_addr) => match vault_roleid {
            Some(role) => {
                let login = vault_login_request(&vault_addr, &role);
                let (path, key) = secret_location(secret);
                Ok(SecretPlan { vault_addr, login, path, key })
            },
            None => Err("VAULT_ROLEID not set"),
        },
        None => Err("VAULT_ADDR not set"),
    }
}

/// The token to be sent along, from its JSON text.
pub fn vault_token(json: &str) -> (r: String)
    ensures
        r@ == text::trim_quotes_text(json@),
{
    trim_quotes(json)
}

/// The secret that a setting stands for, if it does.
pub fn secret_reference(value: &str) -> (r: Option<String>)
    ensures
        crate::broker::optional_text(r) == text::after_prefix(value@, "secret:"@),
{
    strip_prefix(value, "secret:")
}

/// The key of a secret is what follows its last slash, and its path what stands before; a
/// secret without a slash is a key alone.
pub proof fn law_secret_path(path: Seq<char>, key: Seq<char>)
    requires
        !key.contains('/'),
    ensures
        secret_path(path + seq!['/'] + key) == (path, key),
        secret_path(key) == (Seq::<char>::empty(), key),
{
    let items = text::split_on(path, '/');
    text::law_split_join(path, '/');
    let all = items.push(key);
    assert forall|i: int| 0 <= i < all.len() implies !(#[trigger] all[i]).contains('/') by {
        if i < items.len() {
            assert(all[i] == items[i]);
        }
    }
    text::law_join_split(all, '/');
    assert(all.drop_last() =~= items);
    assert(text::join_with(all, '/') =~= path + seq!['/'] + key);
    let alone = seq![key];
    text::law_join_split(alone, '/');
    assert(alone.drop_last() =~= seq![]);
    assert(text::join_with(alone, '/') == key);
}

/// A value that the vault gives as a quoted text is that text; any other is no string, and
/// no value is a fault that names the secret and the key.
pub proof fn law_kv_outcome(secret: Seq<char>, key: Seq<char>, value: Seq<char>)
    ensures
        kv_outcome(secret, key, Some(seq!['"'] + value + seq!['"'])) == Ok::<
            Option<Seq<char>>,
            Seq<char>,
        >(Some(value)),
        !(value.len() >= 2 && value[0] == '"' && value.last() == '"') ==> kv_outcome(
            secret,
            key,
            Some(value),
        ) == Ok::<Option<Seq<char>>, Seq<char>>(None),
        kv_outcome(secret, key, None) == Err::<Option<Seq<char>>, Seq<char>>(
            "Error fetching secret "@ + secret + " key "@ + key,
        ),
{
    text::law_unquoted(value, value);
}

} // verus!

//! API keys in the system's credential store.
use vstd::prelude::*;

use crate::outcome::outcome;

verus! {

/// The name under which the store keeps this program's entries.
pub const SERVICE: &'static str = "com.fjdev.localagentsops";

/// The account under which a provider's key is kept.
pub open spec fn account(provider: Seq<char>) -> Seq<char> {
    "api_key_"@ + provider
}

/// The account under which a provider's key is kept.
pub fn account_for(provider: &str) -> (r: String)
    ensures
        r@ == account(provider@),
{
    "api_key_".to_string().concat(provider)
}

/// What the store is asked to do with the entry of one account.
#[derive(Debug)]
pub enum StoreCall {
    Write { account: String, secret: String },
    Read { account: String },
    Delete { account: String },
}

/// What a [`StoreCall`] says.
pub enum StoreCallView {
    Write { account: Seq<char>, secret: Seq<char> },
    Read { account: Seq<char> },
    Delete { account: Seq<char> },
}

impl View for StoreCall {
    type V = StoreCallView;

    open spec fn view(&self) -> StoreCallView {
        match self {
            StoreCall::Write { account, secret } => StoreCallView::Write {
                account: account@,
                secret: secret@,
            },
            StoreCall::Read { account } => StoreCallView::Read { account: account@ },
            StoreCall::Delete { account } => StoreCallView::Delete { account: account@ },
        }
    }
}

/// How the store answers.
#[derive(Debug)]
pub enum StoreReply {
    Done,
    Secret(String),
    /// There is no such entry. The text is the store's own.
    NoEntry(String),
    /// The store failed, for the reason given.
    Failed(String),
}

/// What a [`StoreReply`] says.
pub enum StoreReplyView {
    Done,
    Secret(Seq<char>),
    NoEntry(Seq<char>),
    Failed(Seq<char>),
}

impl View for StoreReply {
    type V = StoreReplyView;

    open spec fn view(&self) -> StoreReplyView {
        match self {
            StoreReply::Done => StoreReplyView::Done,
            StoreReply::Secret(secret) => StoreReplyView::Secret(secret@),
            StoreReply::NoEntry(text) => StoreReplyView::NoEntry(text@),
            StoreReply::Failed(text) => StoreReplyView::Failed(text@),
        }
    }
}

/// The call that saves a provider's key.
pub open spec fn saving_call(provider: Seq<char>, key: Seq<char>) -> StoreCallView {
    StoreCallView::Write { account: account(provider), secret: key }
}

/// The call that reads a provider's key.
pub open spec fn reading_call(provider: Seq<char>) -> StoreCallView {
    StoreCallView::Read { account: account(provider) }
}

/// The call that removes a provider's key.
pub open spec fn clearing_call(provider: Seq<char>) -> StoreCallView {
    StoreCallView::Delete { account: account(provider) }
}

/// The call that saves a provider's key, over any that is there.
pub fn save_call(provider: &str, key: &str) -> (r: StoreCall)
    ensures
        r@ == (StoreCallView::Write { account: account(provider@), secret: key@ }),
        r@ == saving_call(provider@, key@),
{
    StoreCall::Write { account: account_for(provider), secret: key.to_string() }
}

/// The call that reads a provider's key.
pub fn get_call(provider: &str) -> (r: StoreCall)
    ensures
        r@ == (StoreCallView::Read { account: account(provider@) }),
        r@ == reading_call(provider@),
{
    StoreCall::Read { account: account_for(provider) }
}

/// The call that removes a provider's key.
pub fn clear_call(provider: &str) -> (r: StoreCall)
    ensures
        r@ == (StoreCallView::Delete { account: account(provider@) }),
        r@ == clearing_call(provider@),
{
    StoreCall::Delete { account: account_for(provider) }
}

/// What saving came to.
pub open spec fn saved(reply: StoreReplyView) -> Result<(), Seq<char>> {
    match reply {
        StoreReplyView::NoEntry(text) => Err(text),
        StoreReplyView::Failed(text) => Err(text),
        _ => Ok(()),
    }
}

/// The key that was read. One that cannot be read counts as absent.
pub open spec fn found(reply: StoreReplyView) -> Option<Seq<char>> {
    match reply {
        StoreReplyView::Secret(secret) => Some(secret),
        _ => None,
    }
}

/// What removing came to. Removing a key that is not there succeeds.
pub open spec fn cleared(reply: StoreReplyView) -> Result<(), Seq<char>> {
    match reply {
        StoreReplyView::Failed(text) => Err(text),
        _ => Ok(()),
    }
}

/// What saving a key came to, by the store's reply to [`save_call`].
pub fn save_key(reply: StoreReply) -> (r: Result<(), String>)
    ensures
        outcome(r) == saved(reply@),
{
    match reply {
        StoreReply::NoEntry(text) => Err(text),
        StoreReply::Failed(text) => Err(text),
        _ => Ok(()),
    }
}

/// The key, by the store's reply to [`get_call`].
pub fn get_key(reply: StoreReply) -> (r: Option<String>)
    ensures
        r.deep_view() == found(reply@),
{
    match reply {
        StoreReply::Secret(secret) => Some(secret),
        _ => None,
    }
}

/// Whether there is a key, by the store's reply to [`get_call`].
pub fn has_key(reply: &StoreReply) -> (r: bool)
    ensures
        r == found(reply@) is Some,
{
    match reply {
        StoreReply::Secret(_) => true,
        _ => false,
    }
}

/// What removing a key came to, by the store's reply to [`clear_call`].
pub fn clear_key(reply: StoreReply) -> (r: Result<(), String>)
    ensures
        outcome(r) == cleared(reply@),
{
    match reply {
        StoreReply::Failed(text) => Err(text),
        _ => Ok(()),
    }
}

/// What a store that holds `secrets` by account holds after a call.
pub open spec fn store_after(
    secrets: Map<Seq<char>, Seq<char>>,
    call: StoreCallView,
) -> Map<Seq<char>, Seq<char>> {
    match call {
        StoreCallView::Write { account, secret } => secrets.insert(account, secret),
        StoreCallView::Read { .. } => secrets,
        StoreCallView::Delete { account } => secrets.remove(account),
    }
}

/// Whether `reply` is how a store that works answers a call.
pub open spec fn answers(
    secrets: Map<Seq<char>, Seq<char>>,
    call: StoreCallView,
    reply: StoreReplyView,
) -> bool {
    match call {
        StoreCallView::Write { .. } => reply is Done,
        StoreCallView::Read { account } => if secrets.contains_key(account) {
            reply == StoreReplyView::Secret(secrets[account])
        } else {
            reply is NoEntry
        },
        StoreCallView::Delete { account } => if secrets.contains_key(account) {
            reply is Done
        } else {
            reply is NoEntry
        },
    }
}

/// No two providers share an account.
pub proof fn law_accounts_are_distinct(a: Seq<char>, b: Seq<char>)
    ensures
        account(a) == account(b) <==> a == b,
{
    let n = "api_key_"@.len() as int;
    assert(account(a).skip(n) =~= a);
    assert(account(b).skip(n) =~= b);
}

/// In a store that works, a key that was saved, over another or not, is read
/// back, and the keys of other providers stay as they were.
pub proof fn law_saved_keys_are_read_back(
    secrets: Map<Seq<char>, Seq<char>>,
    provider: Seq<char>,
    key: Seq<char>,
    saving: StoreReplyView,
    other: Seq<char>,
    reading: StoreReplyView,
    reading_before: StoreReplyView,
)
    requires
        answers(
            secrets,
            StoreCallView::Write { account: account(provider), secret: key },
            saving,
        ),
        answers(
            store_after(
                secrets,
                StoreCallView::Write { account: account(provider), secret: key },
            ),
            StoreCallView::Read { account: account(other) },
            reading,
        ),
        answers(secrets, StoreCallView::Read { account: account(other) }, reading_before),
    ensures
        saved(saving) is Ok,
        found(reading) == if other == provider {
            Some(key)
        } else {
            found(reading_before)
        },
{
    law_accounts_are_distinct(provider, other);
}

/// In a store that works, removing a key succeeds whether or not it is there, so
/// also the second time, and afterwards there is none; the keys of other
/// providers stay as they were.
pub proof fn law_cleared_keys_are_gone(
    secrets: Map<Seq<char>, Seq<char>>,
    provider: Seq<char>,
    clearing: StoreReplyView,
    other: Seq<char>,
    reading: StoreReplyView,
    reading_before: StoreReplyView,
)
    requires
        answers(secrets, StoreCallView::Delete { account: account(provider) }, clearing),
        answers(
            store_after(secrets, StoreCallView::Delete { account: account(provider) }),
            StoreCallView::Read { account: account(other) },
            reading,
        ),
        answers(secrets, StoreCallView::Read { account: account(other) }, reading_before),
    ensures
        cleared(clearing) is Ok,
        found(reading) == if other == provider {
            None
        } else {
            found(reading_before)
        },
{
    law_accounts_are_distinct(provider, other);
}

/// A store that fails is not taken for one that works: saving and removing report
/// its own words, and nothing but a secret that it handed out is taken for a key.
pub proof fn law_failures_of_the_store_are_reported(text: Seq<char>, reply: StoreReplyView)
    ensures
        saved(StoreReplyView::Failed(text)) == Err::<(), Seq<char>>(text),
        saved(StoreReplyView::NoEntry(text)) == Err::<(), Seq<char>>(text),
        cleared(StoreReplyView::Failed(text)) == Err::<(), Seq<char>>(text),
        found(reply) == Some(text) <==> reply == StoreReplyView::Secret(text),
{
}

/// In a store that works, the calls made for a provider do what they are for, on the
/// key as it was given: one that was saved is read back, until it is removed, and
/// what is done for one provider changes nothing for another.
pub proof fn law_calls_keep_keys_as_given(
    secrets: Map<Seq<char>, Seq<char>>,
    provider: Seq<char>,
    key: Seq<char>,
    other: Seq<char>,
    reply: StoreReplyView,
)
    ensures
        answers(store_after(secrets, saving_call(provider, key)), reading_call(provider), reply)
            ==> found(reply) == Some(key),
        answers(store_after(secrets, clearing_call(provider)), reading_call(provider), reply)
            ==> found(reply) is None,
        store_after(secrets, reading_call(provider)) == secrets,
        other != provider && answers(
            store_after(secrets, saving_call(provider, key)),
            reading_call(other),
            reply,
        ) ==> answers(secrets, reading_call(other), reply),
        other != provider && answers(
            store_after(secrets, clearing_call(provider)),
            reading_call(other),
            reply,
        ) ==> answers(secrets, reading_call(other), reply),
{
    law_accounts_are_distinct(provider, other);
}

} // verus!

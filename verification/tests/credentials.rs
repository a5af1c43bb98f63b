use std::collections::HashMap;

use local_agents_ops::credentials::{
    account_for, clear_call, clear_key, get_call, get_key, has_key, save_call, save_key, StoreCall,
    StoreReply, SERVICE,
};

const TEST_PROVIDER: &str = "__test_provider__";

/// A credential store in memory.
struct Store {
    secrets: HashMap<String, String>,
}

impl Store {
    fn perform(&mut self, call: StoreCall) -> StoreReply {
        let missing = || StoreReply::NoEntry("No matching entry found".to_string());
        match call {
            StoreCall::Write { account, secret } => {
                self.secrets.insert(account, secret);
                StoreReply::Done
            }
            StoreCall::Read { account } => match self.secrets.get(&account) {
                Some(secret) => StoreReply::Secret(secret.clone()),
                None => missing(),
            },
            StoreCall::Delete { account } => match self.secrets.remove(&account) {
                Some(_) => StoreReply::Done,
                None => missing(),
            },
        }
    }

    fn save(&mut self, provider: &str, key: &str) -> Result<(), String> {
        save_key(self.perform(save_call(provider, key)))
    }

    fn get(&mut self, provider: &str) -> Option<String> {
        get_key(self.perform(get_call(provider)))
    }

    fn has(&mut self, provider: &str) -> bool {
        has_key(&self.perform(get_call(provider)))
    }

    fn clear(&mut self, provider: &str) -> Result<(), String> {
        clear_key(self.perform(clear_call(provider)))
    }
}

#[test]
fn round_trips_through_the_os_credential_store() {
    let mut store = Store { secrets: HashMap::new() };
    store.clear(TEST_PROVIDER).expect("clear should tolerate a missing entry");
    assert!(!store.has(TEST_PROVIDER));

    store.save(TEST_PROVIDER, "not-a-real-key-0123456789").expect("save_key");
    assert_eq!(
        store.get(TEST_PROVIDER).as_deref(),
        Some("not-a-real-key-0123456789")
    );
    assert!(store.has(TEST_PROVIDER));

    // A new key replaces the old one.
    store.save(TEST_PROVIDER, "rotated-key").expect("overwrite");
    assert_eq!(store.get(TEST_PROVIDER).as_deref(), Some("rotated-key"));

    store.clear(TEST_PROVIDER).expect("clear_key");
    assert!(!store.has(TEST_PROVIDER));
    // Removing twice must stay a no-op.
    store.clear(TEST_PROVIDER).expect("second clear should be a no-op");
}

#[test]
fn providers_do_not_share_keys() {
    let mut store = Store { secrets: HashMap::new() };
    store.save("openai", "a").unwrap();
    store.save("xai", "b").unwrap();
    assert_eq!(store.get("openai").as_deref(), Some("a"));
    store.clear("openai").unwrap();
    assert_eq!(store.get("openai"), None);
    assert_eq!(store.get("xai").as_deref(), Some("b"));
}

#[test]
fn accounts_carry_the_provider() {
    assert_eq!(SERVICE, "com.fjdev.localagentsops");
    assert_eq!(account_for("openai"), "api_key_openai");
    assert_eq!(account_for(""), "api_key_");
}

#[test]
fn a_store_that_fails_is_reported() {
    let failed = || StoreReply::Failed("locked".to_string());
    let missing = || StoreReply::NoEntry("nothing there".to_string());
    assert_eq!(save_key(failed()), Err("locked".to_string()));
    assert_eq!(save_key(missing()), Err("nothing there".to_string()));
    assert_eq!(get_key(failed()), None);
    assert!(!has_key(&failed()));
    assert_eq!(clear_key(failed()), Err("locked".to_string()));
    assert_eq!(clear_key(missing()), Ok(()));
}

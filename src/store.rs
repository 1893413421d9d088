use vstd::prelude::*;
use vstd::hash_map::StringHashMap;

verus! {

/// A stored value with its optional absolute expiry, in milliseconds on the
/// caller's clock.
pub struct ExpiringValue {
    pub value: String,
    pub expiry: Option<u128>,
}

impl View for ExpiringValue {
    type V = (Seq<char>, Option<int>);

    open spec fn view(&self) -> (Seq<char>, Option<int>) {
        (
            self.value@,
            match self.expiry {
                Some(t) => Some(t as int),
                None => None,
            },
        )
    }
}

/// The shared key-value store: each key maps to a value and an optional
/// expiry. Expired entries stay until overwritten; reads treat them as absent.
pub struct State {
    pub map: StringHashMap<ExpiringValue>,
}

/// What the store holds for each key: the value and the absolute expiry.
pub type StoreView = Map<Seq<char>, (Seq<char>, Option<int>)>;

/// An entry with expiry `e` is live at instant `now` while `now < e`.
pub open spec fn is_live(expiry: Option<int>, now: int) -> bool {
    match expiry {
        Some(e) => now < e,
        None => true,
    }
}

/// What a read of `key` at instant `now` reports.
pub open spec fn lookup(m: StoreView, key: Seq<char>, now: int) -> Option<Seq<char>> {
    if m.contains_key(key) && is_live(m[key].1, now) {
        Some(m[key].0)
    } else {
        None
    }
}

/// The absolute expiry recorded by a write at `now` with time-to-live `ttl`.
pub open spec fn expiry_for(ttl: Option<u64>, now: u64) -> Option<int> {
    match ttl {
        Some(t) => Some(now + t),
        None => None,
    }
}

/// The store after a write of `value` under `key` at instant `now`.
pub open spec fn stored(m: StoreView, key: Seq<char>, value: Seq<char>, ttl: Option<u64>, now: u64) -> StoreView {
    m.insert(key, (value, expiry_for(ttl, now)))
}

impl View for State {
    type V = StoreView;

    open spec fn view(&self) -> StoreView {
        self.map@.map_values(|e: ExpiringValue| e@)
    }
}

impl State {
    pub fn new() -> (r: State)
        ensures
            r@ == StoreView::empty(),
    {
        let r = State { map: StringHashMap::new() };
        assert(r@ =~= StoreView::empty());
        r
    }

    /// Inserts or replaces the entry for `key`; a `ttl` in milliseconds makes
    /// it expire at `now + ttl`, no `ttl` makes it permanent.
    pub fn set(&mut self, key: String, value: String, ttl: Option<u64>, now: u64)
        ensures
            final(self)@ == stored(old(self)@, key@, value@, ttl, now),
    {
        let expiry: Option<u128> = match ttl {
            Some(t) => Some(now as u128 + t as u128),
            None => None,
        };
        let entry = ExpiringValue { value, expiry };
        self.map.insert(key, entry);
        assert(self@ =~= stored(old(self)@, key@, value@, ttl, now));
    }

    /// The value stored under `key`, unless it is absent or expired at `now`.
    pub fn get(&self, key: &str, now: u64) -> (r: Option<String>)
        ensures
            match r {
                Some(v) => lookup(self@, key@, now as int) == Some(v@),
                None => lookup(self@, key@, now as int) is None,
            },
    {
        match self.map.get(key) {
            Some(entry) => {
                let live = match entry.expiry {
                    Some(e) => (now as u128) < e,
                    None => true,
                };
                if live {
                    Some(entry.value.clone())
                } else {
                    None
                }
            },
            None => None,
        }
    }
}

/// A read at any instant after a write without time-to-live returns the
/// written value.
pub proof fn lemma_get_after_set(m: StoreView, key: Seq<char>, value: Seq<char>, set_at: u64, now: int)
    ensures
        lookup(stored(m, key, value, None, set_at), key, now) == Some(value),
{
}

/// After a write with time-to-live `ttl` at `set_at`, a read at `now` (not
/// before the write) returns the value while less than `ttl` milliseconds have
/// passed and nothing from then on.
pub proof fn lemma_get_after_set_with_ttl(
    m: StoreView,
    key: Seq<char>,
    value: Seq<char>,
    ttl: u64,
    set_at: u64,
    now: int,
)
    requires
        set_at <= now,
    ensures
        now - set_at < ttl ==> lookup(stored(m, key, value, Some(ttl), set_at), key, now) == Some(value),
        now - set_at >= ttl ==> lookup(stored(m, key, value, Some(ttl), set_at), key, now) is None,
{
}

/// A write without time-to-live replaces both the value and the expiry of an
/// earlier write with time-to-live: the new value is read at every later instant.
pub proof fn lemma_set_clears_expiry(
    m: StoreView,
    key: Seq<char>,
    first: Seq<char>,
    ttl: u64,
    first_at: u64,
    second: Seq<char>,
    second_at: u64,
    now: int,
)
    ensures
        stored(stored(m, key, first, Some(ttl), first_at), key, second, None, second_at)[key].1 is None,
        lookup(stored(stored(m, key, first, Some(ttl), first_at), key, second, None, second_at), key, now)
            == Some(second),
{
}

} // verus!

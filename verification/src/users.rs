//! User account registry: the authoritative table of who exists.
//!
//! A fixed array of `MAX_USERS` account slots. The reserved accounts
//! (system, admin, guest, nobody) are installed by `UserRegistry::init` and
//! cannot be deleted; dynamically created accounts get ids in `[10, 250)`.
use vstd::prelude::*;
use vstd::string::StringSliceAdditionalSpecFns;
use crate::tier::SecurityTier;
use crate::security::{UserId, SecurityError, USER_SYSTEM, USER_ADMIN, USER_GUEST, USER_NOBODY};

pub mod groups;

verus! {

/// Number of account slots.
pub const MAX_USERS: usize = 32;
/// Longest user name, in bytes.
pub const MAX_USERNAME_LEN: usize = 31;
/// Reserved low id range (system-managed).
pub const FIRST_RESERVED_LOW: UserId = 0;
pub const LAST_RESERVED_LOW: UserId = 9;
/// First id handed out by `create_user`.
pub const FIRST_DYNAMIC_USER: UserId = 10;
/// One past the last id handed out by `create_user`.
pub const FIRST_RESERVED_HIGH: UserId = 250;

/// Group identifier.
pub type GroupId = u8;

/// Whether any bit of `mask` is set in `bits`.
pub open spec fn flag_on(bits: u16, mask: u16) -> bool {
    bits & mask != 0
}

/// Per-account flag bits.
#[derive(Clone, Copy, PartialEq, Eq, Structural)]
pub struct UserFlags(pub u16);

impl UserFlags {
    /// Slot is in use.
    pub const ACTIVE: u16 = 1;
    /// Built-in account: cannot be deleted.
    pub const SYSTEM: u16 = 2;
    /// Account is locked: cannot be switched into.
    pub const LOCKED: u16 = 4;

    /// No flags.
    pub fn empty() -> (r: Self)
        ensures r.0 == 0,
    {
        UserFlags(0)
    }

    /// Only the active flag.
    pub fn active() -> (r: Self)
        ensures r.0 == UserFlags::ACTIVE,
    {
        UserFlags(UserFlags::ACTIVE)
    }

    pub fn is_active(&self) -> (r: bool)
        ensures r == flag_on(self.0, UserFlags::ACTIVE),
    {
        self.0 & UserFlags::ACTIVE != 0
    }

    pub fn is_system(&self) -> (r: bool)
        ensures r == flag_on(self.0, UserFlags::SYSTEM),
    {
        self.0 & UserFlags::SYSTEM != 0
    }

    pub fn is_locked(&self) -> (r: bool)
        ensures r == flag_on(self.0, UserFlags::LOCKED),
    {
        self.0 & UserFlags::LOCKED != 0
    }

    /// Set the bits of `mask`.
    pub fn set(&mut self, mask: u16)
        ensures final(self).0 == old(self).0 | mask,
    {
        self.0 = self.0 | mask;
    }

    /// Clear the bits of `mask`.
    pub fn clear(&mut self, mask: u16)
        ensures final(self).0 == old(self).0 & !mask,
    {
        self.0 = self.0 & !mask;
    }
}

/// The flag words that the registry writes, and what they hold.
proof fn lemma_flag_values()
    ensures
        !flag_on(0, 1), !flag_on(0, 2), !flag_on(0, 4),
        flag_on(1, 1), !flag_on(1, 2), !flag_on(1, 4),
        flag_on(3, 1), flag_on(3, 2), !flag_on(3, 4),
        1u16 | 2u16 == 3u16,
{
    assert(0u16 & 1u16 == 0 && 0u16 & 2u16 == 0 && 0u16 & 4u16 == 0
        && 1u16 & 1u16 != 0 && 1u16 & 2u16 == 0 && 1u16 & 4u16 == 0
        && 3u16 & 1u16 != 0 && 3u16 & 2u16 != 0 && 3u16 & 4u16 == 0
        && 1u16 | 2u16 == 3u16) by (bit_vector);
}

/// A user account: a fixed-size record kept directly in the registry.
#[derive(Clone, Copy)]
pub struct UserAccount {
    pub id: UserId,
    pub group: GroupId,
    /// Highest tier this user may access by default.
    pub default_max_tier: SecurityTier,
    /// Reserved for a future authentication module.
    pub password_hash: [u8; 32],
    /// Name buffer; only the first `name_len` bytes are meaningful.
    pub name: [u8; 31],
    pub name_len: u8,
    pub flags: UserFlags,
}

/// Number of name bytes held (the stored length, at most the buffer size).
pub open spec fn clamp_name_len(n: int) -> int {
    if n <= 31 { n } else { 31 }
}

impl UserAccount {
    /// The account's name bytes.
    pub open spec fn name_view(&self) -> Seq<u8> {
        self.name@.subrange(0, clamp_name_len(self.name_len as int))
    }

    /// An unused slot: id nobody, group none, public tier, no name, no flags.
    pub open spec fn is_blank(&self) -> bool {
        &&& self.id == USER_NOBODY
        &&& self.group == groups::NONE
        &&& self.default_max_tier == SecurityTier::Public
        &&& self.name_view() == Seq::<u8>::empty()
        &&& self.flags.0 == 0
        &&& forall|i: int| 0 <= i < 32 ==> self.password_hash@[i] == 0
    }

    /// An unused account slot.
    pub fn empty() -> (r: Self)
        ensures r.is_blank(),
    {
        let r = UserAccount {
            id: USER_NOBODY,
            group: groups::NONE,
            default_max_tier: SecurityTier::Public,
            password_hash: [0u8; 32],
            name: [0u8; 31],
            name_len: 0,
            flags: UserFlags::empty(),
        };
        assert(r.name_view() =~= Seq::<u8>::empty());
        assert forall|i: int| 0 <= i < 32 implies r.password_hash@[i] == 0 by {}
        r
    }

    fn new(id: UserId, name: &str, group: GroupId, tier: SecurityTier, system: bool) -> (r: Self)
        ensures
            fresh_account(r, id as int, name.spec_bytes().subrange(0,
                clamp_name_len(name.spec_bytes().len() as int)), group, tier, system),
    {
        let mut acc = Self::empty();
        acc.id = id;
        acc.group = group;
        acc.default_max_tier = tier;
        let bytes = name.as_bytes();
        let n: usize = if bytes.len() < MAX_USERNAME_LEN { bytes.len() } else { MAX_USERNAME_LEN };
        let mut i: usize = 0;
        while i < n
            invariant
                n <= 31, n <= bytes@.len(), i <= n,
                acc.name@.len() == 31,
                forall|j: int| 0 <= j < i ==> acc.name@[j] == bytes@[j],
                acc.id == id, acc.group == group, acc.default_max_tier == tier,
                forall|j: int| 0 <= j < 32 ==> acc.password_hash@[j] == 0,
            decreases n - i,
        {
            acc.name[i] = bytes[i];
            i += 1;
        }
        acc.name_len = n as u8;
        acc.flags = UserFlags::active();
        if system {
            acc.flags.set(UserFlags::SYSTEM);
        }
        proof {
            lemma_flag_values();
            assert(acc.name_view() =~= bytes@.subrange(0, n as int));
        }
        acc
    }

    /// The account's name.
    pub fn name(&self) -> (r: &[u8])
        ensures r@ == self.name_view(),
    {
        let n: usize = if self.name_len <= 31 { self.name_len as usize } else { 31 };
        vstd::slice::slice_subrange(self.name.as_slice(), 0, n)
    }

    fn name_matches(&self, name: &[u8]) -> (r: bool)
        ensures r == (self.name_view() == name@),
    {
        let n: usize = if self.name_len <= 31 { self.name_len as usize } else { 31 };
        if n != name.len() {
            proof {
                assert(self.name_view().len() != name@.len());
            }
            return false;
        }
        let mut i: usize = 0;
        while i < n
            invariant
                n == name@.len(), n <= 31, i <= n, self.name@.len() == 31,
                n == clamp_name_len(self.name_len as int),
                forall|j: int| 0 <= j < i ==> self.name@[j] == name@[j],
            decreases n - i,
        {
            if self.name[i] != name[i] {
                proof {
                    assert(self.name_view()[i as int] != name@[i as int]);
                }
                return false;
            }
            i += 1;
        }
        proof {
            assert(self.name_view() =~= name@);
        }
        true
    }
}

/// `a` is a freshly made account with these fields.
pub open spec fn fresh_account(a: UserAccount, id: int, name: Seq<u8>, group: GroupId,
    tier: SecurityTier, system: bool) -> bool {
    &&& a.id == id
    &&& a.group == group
    &&& a.default_max_tier == tier
    &&& a.name_view() == name
    &&& a.flags.0 == (if system { 3u16 } else { 1u16 })
    &&& forall|i: int| 0 <= i < 32 ==> a.password_hash@[i] == 0
}

/// The slot is in use.
pub open spec fn is_active_acct(a: UserAccount) -> bool {
    flag_on(a.flags.0, UserFlags::ACTIVE)
}

/// The slot is in use and holds account `id`.
pub open spec fn holds_id(a: UserAccount, id: int) -> bool {
    is_active_acct(a) && a.id == id
}

/// Some slot holds account `id`.
pub open spec fn id_in_use(s: Seq<UserAccount>, id: int) -> bool {
    exists|i: int| 0 <= i < s.len() && #[trigger] holds_id(s[i], id)
}

/// Slot `k` is the first slot holding account `id`.
pub open spec fn first_holder(s: Seq<UserAccount>, id: int, k: int) -> bool {
    &&& 0 <= k < s.len()
    &&& holds_id(s[k], id)
    &&& forall|j: int| 0 <= j < k ==> !#[trigger] holds_id(s[j], id)
}

/// The slot is in use under the name `name`.
pub open spec fn holds_name(a: UserAccount, name: Seq<u8>) -> bool {
    is_active_acct(a) && a.name_view() == name
}

/// Some slot is in use under the name `name`.
pub open spec fn name_in_use(s: Seq<UserAccount>, name: Seq<u8>) -> bool {
    exists|i: int| 0 <= i < s.len() && #[trigger] holds_name(s[i], name)
}

/// Slot `k` is the first slot in use under the name `name`.
pub open spec fn first_name_holder(s: Seq<UserAccount>, name: Seq<u8>, k: int) -> bool {
    &&& 0 <= k < s.len()
    &&& holds_name(s[k], name)
    &&& forall|j: int| 0 <= j < k ==> !#[trigger] holds_name(s[j], name)
}

/// A name that `create_user` accepts.
pub open spec fn name_valid(name: Seq<u8>) -> bool {
    0 < name.len() <= MAX_USERNAME_LEN
}

/// Id `c` is the least dynamic id not in use.
pub open spec fn first_free_id(s: Seq<UserAccount>, c: int) -> bool {
    &&& FIRST_DYNAMIC_USER <= c < FIRST_RESERVED_HIGH
    &&& !id_in_use(s, c)
    &&& forall|d: int| FIRST_DYNAMIC_USER <= d < c ==> #[trigger] id_in_use(s, d)
}

/// Slot `k` is the first unused slot.
pub open spec fn first_free_slot(s: Seq<UserAccount>, k: int) -> bool {
    &&& 0 <= k < s.len()
    &&& !is_active_acct(s[k])
    &&& forall|j: int| 0 <= j < k ==> #[trigger] is_active_acct(s[j])
}

/// `create_user` succeeds exactly when the name is valid and unused, a
/// dynamic id is free and a slot is free.
pub open spec fn create_allowed(s: Seq<UserAccount>, name: Seq<u8>) -> bool {
    &&& name_valid(name)
    &&& !name_in_use(s, name)
    &&& exists|c: int| FIRST_DYNAMIC_USER <= c < FIRST_RESERVED_HIGH && !#[trigger] id_in_use(s, c)
    &&& exists|k: int| 0 <= k < s.len() && !#[trigger] is_active_acct(s[k])
}

/// `after` is `before` with a new account `id` in the first free slot.
pub open spec fn created(before: Seq<UserAccount>, after: Seq<UserAccount>, id: int, name: Seq<u8>,
    group: GroupId, tier: SecurityTier) -> bool {
    &&& first_free_id(before, id)
    &&& exists|k: int| first_free_slot(before, k) && after == before.update(k, after[k])
        && fresh_account(after[k], id, name, group, tier, false)
}

/// The active accounts among the first `n` slots, in slot order.
pub open spec fn active_prefix(s: Seq<UserAccount>, n: int) -> Seq<UserAccount>
    decreases n,
{
    if n <= 0 {
        Seq::empty()
    } else if is_active_acct(s[n - 1]) {
        active_prefix(s, n - 1).push(s[n - 1])
    } else {
        active_prefix(s, n - 1)
    }
}

/// Whether `requester` may switch the effective user to `target`: the target
/// exists and is not locked, and the requester is system, or admin with a
/// target other than system.
pub open spec fn setuid_allowed(s: Seq<UserAccount>, requester: UserId, target: UserId) -> bool {
    &&& exists|k: int| first_holder(s, target as int, k)
        && !flag_on(s[k].flags.0, UserFlags::LOCKED)
    &&& (requester == USER_SYSTEM || (requester == USER_ADMIN && target != USER_SYSTEM))
}

/// Flat registry of account slots.
pub struct UserRegistry {
    accounts: [UserAccount; 32],
    initialized: bool,
}

impl View for UserRegistry {
    type V = Seq<UserAccount>;

    closed spec fn view(&self) -> Seq<UserAccount> {
        self.accounts@
    }
}

impl UserRegistry {
    /// Whether the built-in accounts have been installed.
    pub closed spec fn is_init(&self) -> bool {
        self.initialized
    }

    /// An empty, uninitialised registry.
    pub fn new() -> (r: Self)
        ensures
            !r.is_init(),
            r@.len() == MAX_USERS,
            forall|i: int| 0 <= i < MAX_USERS ==> (#[trigger] r@[i]).is_blank(),
    {
        let e = UserAccount::empty();
        let r = UserRegistry { accounts: [e; 32], initialized: false };
        assert(r@.len() == 32);
        r
    }

    /// Install the built-in accounts in slots 0..4. Idempotent.
    pub fn init(&mut self)
        ensures
            final(self).is_init(),
            old(self).is_init() ==> final(self)@ == old(self)@,
            !old(self).is_init() ==> {
                &&& final(self)@.len() == old(self)@.len()
                &&& fresh_account(final(self)@[0], USER_SYSTEM as int, final(self)@[0].name_view(),
                    groups::SYSTEM, SecurityTier::Secret, true)
                &&& fresh_account(final(self)@[1], USER_ADMIN as int, final(self)@[1].name_view(),
                    groups::ADMIN, SecurityTier::Secret, true)
                &&& fresh_account(final(self)@[2], USER_GUEST as int, final(self)@[2].name_view(),
                    groups::GUEST, SecurityTier::Public, true)
                &&& fresh_account(final(self)@[3], USER_NOBODY as int, final(self)@[3].name_view(),
                    groups::NONE, SecurityTier::Public, true)
                &&& final(self)@[0].name_view() == "system".spec_bytes()
                &&& final(self)@[1].name_view() == "admin".spec_bytes()
                &&& final(self)@[2].name_view() == "guest".spec_bytes()
                &&& final(self)@[3].name_view() == "nobody".spec_bytes()
                &&& forall|i: int| 4 <= i < MAX_USERS ==> final(self)@[i] == old(self)@[i]
            },
    {
        if self.initialized {
            return;
        }
        proof {
            reveal_strlit("system");
            reveal_strlit("admin");
            reveal_strlit("guest");
            reveal_strlit("nobody");
            vstd::string::is_ascii_spec_bytes("system");
            vstd::string::is_ascii_spec_bytes("admin");
            vstd::string::is_ascii_spec_bytes("guest");
            vstd::string::is_ascii_spec_bytes("nobody");
            assert("system".spec_bytes().len() == 6);
            assert("admin".spec_bytes().len() == 5);
            assert("guest".spec_bytes().len() == 5);
            assert("nobody".spec_bytes().len() == 6);
        }
        self.accounts[0] = UserAccount::new(USER_SYSTEM, "system", groups::SYSTEM, SecurityTier::Secret, true);
        self.accounts[1] = UserAccount::new(USER_ADMIN, "admin", groups::ADMIN, SecurityTier::Secret, true);
        self.accounts[2] = UserAccount::new(USER_GUEST, "guest", groups::GUEST, SecurityTier::Public, true);
        self.accounts[3] = UserAccount::new(USER_NOBODY, "nobody", groups::NONE, SecurityTier::Public, true);
        self.initialized = true;
    }

    fn find_id(&self, id: UserId) -> (r: Option<usize>)
        ensures
            r is None <==> !id_in_use(self@, id as int),
            r matches Some(k) ==> first_holder(self@, id as int, k as int),
    {
        let mut i: usize = 0;
        while i < 32
            invariant
                i <= 32, self@.len() == 32,
                forall|j: int| 0 <= j < i ==> !#[trigger] holds_id(self@[j], id as int),
            decreases 32 - i,
        {
            if self.accounts[i].flags.is_active() && self.accounts[i].id == id {
                assert(holds_id(self@[i as int], id as int));
                return Some(i);
            }
            i += 1;
        }
        None
    }

    /// The first active account with id `id`.
    pub fn lookup(&self, id: UserId) -> (r: Option<&UserAccount>)
        ensures
            r is None <==> !id_in_use(self@, id as int),
            r matches Some(a) ==> exists|k: int| first_holder(self@, id as int, k) && self@[k] == *a,
    {
        match self.find_id(id) {
            Some(k) => Some(&self.accounts[k]),
            None => None,
        }
    }

    /// Mutable access to the first active account with id `id`.
    pub fn lookup_mut(&mut self, id: UserId) -> (r: Option<&mut UserAccount>)
        ensures
            r is None <==> !id_in_use(old(self)@, id as int),
            r is None ==> final(self)@ == old(self)@,
            r is Some ==> exists|k: int| first_holder(old(self)@, id as int, k)
                && *r->0 == old(self)@[k]
                && final(self)@ == old(self)@.update(k, *final(r->0)),
    {
        match self.find_id(id) {
            Some(k) => Some(&mut self.accounts[k]),
            None => None,
        }
    }

    /// The first active account with name `name`.
    pub fn lookup_by_name(&self, name: &[u8]) -> (r: Option<&UserAccount>)
        ensures
            r is None <==> !name_in_use(self@, name@),
            r matches Some(a) ==> exists|k: int| first_name_holder(self@, name@, k) && self@[k] == *a,
    {
        let mut i: usize = 0;
        while i < 32
            invariant
                i <= 32, self@.len() == 32,
                forall|j: int| 0 <= j < i ==> !#[trigger] holds_name(self@[j], name@),
            decreases 32 - i,
        {
            if self.accounts[i].flags.is_active() && self.accounts[i].name_matches(name) {
                assert(first_name_holder(self@, name@, i as int));
                return Some(&self.accounts[i]);
            }
            i += 1;
        }
        None
    }

    /// Create a dynamic user; returns the id it was given.
    pub fn create_user(&mut self, name: &str, group: GroupId, default_max_tier: SecurityTier)
        -> (r: Result<UserId, SecurityError>)
        ensures
            final(self).is_init() == old(self).is_init(),
            r is Ok <==> create_allowed(old(self)@, name.spec_bytes()),
            r is Err ==> r == Err::<UserId, SecurityError>(SecurityError::InvalidPolicy)
                && final(self)@ == old(self)@,
            r matches Ok(id) ==> created(old(self)@, final(self)@, id as int, name.spec_bytes(),
                group, default_max_tier),
    {
        let bytes = name.as_bytes();
        if bytes.len() == 0 || bytes.len() > MAX_USERNAME_LEN {
            return Err(SecurityError::InvalidPolicy);
        }
        if self.lookup_by_name(bytes).is_some() {
            return Err(SecurityError::InvalidPolicy);
        }
        let mut candidate: UserId = FIRST_DYNAMIC_USER;
        while candidate < FIRST_RESERVED_HIGH
            invariant_except_break
                FIRST_DYNAMIC_USER <= candidate <= FIRST_RESERVED_HIGH,
                forall|d: int| FIRST_DYNAMIC_USER <= d < candidate ==> #[trigger] id_in_use(self@, d),
            ensures
                FIRST_DYNAMIC_USER <= candidate <= FIRST_RESERVED_HIGH,
                forall|d: int| FIRST_DYNAMIC_USER <= d < candidate ==> #[trigger] id_in_use(self@, d),
                candidate < FIRST_RESERVED_HIGH ==> !id_in_use(self@, candidate as int),
            decreases FIRST_RESERVED_HIGH - candidate,
        {
            if self.lookup(candidate).is_none() {
                break;
            }
            candidate = candidate + 1;
        }
        if candidate >= FIRST_RESERVED_HIGH {
            proof {
                assert forall|c: int| FIRST_DYNAMIC_USER <= c < FIRST_RESERVED_HIGH
                    implies #[trigger] id_in_use(self@, c) by {}
            }
            return Err(SecurityError::InvalidPolicy);
        }
        let mut slot: usize = 0;
        while slot < 32
            invariant_except_break
                slot <= 32, self@.len() == 32,
                forall|j: int| 0 <= j < slot ==> #[trigger] is_active_acct(self@[j]),
            ensures
                slot <= 32, self@.len() == 32,
                forall|j: int| 0 <= j < slot ==> #[trigger] is_active_acct(self@[j]),
                slot < 32 ==> !is_active_acct(self@[slot as int]),
            decreases 32 - slot,
        {
            if !self.accounts[slot].flags.is_active() {
                break;
            }
            slot += 1;
        }
        if slot >= 32 {
            return Err(SecurityError::InvalidPolicy);
        }
        let ghost before = self@;
        self.accounts[slot] = UserAccount::new(candidate, name, group, default_max_tier, false);
        proof {
            assert(bytes@.subrange(0, clamp_name_len(bytes@.len() as int)) =~= bytes@);
            assert(first_free_slot(before, slot as int));
            assert(self@ =~= before.update(slot as int, self@[slot as int]));
        }
        Ok(candidate)
    }

    /// Remove a dynamic user. Built-in accounts cannot be removed.
    pub fn delete_user(&mut self, id: UserId) -> (r: Result<(), SecurityError>)
        ensures
            final(self).is_init() == old(self).is_init(),
            !id_in_use(old(self)@, id as int) ==> r == Err::<(), SecurityError>(SecurityError::PolicyNotFound)
                && final(self)@ == old(self)@,
            forall|k: int| first_holder(old(self)@, id as int, k) ==> {
                if flag_on(old(self)@[k].flags.0, UserFlags::SYSTEM) {
                    r == Err::<(), SecurityError>(SecurityError::InsufficientPrivilege)
                        && final(self)@ == old(self)@
                } else {
                    r is Ok && final(self)@ == old(self)@.update(k, final(self)@[k])
                        && final(self)@[k].is_blank()
                }
            },
    {
        let k = match self.find_id(id) {
            Some(k) => k,
            None => { return Err(SecurityError::PolicyNotFound); }
        };
        if self.accounts[k].flags.is_system() {
            return Err(SecurityError::InsufficientPrivilege);
        }
        let ghost before = self@;
        self.accounts[k] = UserAccount::empty();
        proof {
            assert(self@ =~= before.update(k as int, self@[k as int]));
            assert forall|k2: int| first_holder(before, id as int, k2) implies k2 == k as int by {
                if k2 < k as int {
                    assert(!holds_id(before[k2], id as int));
                } else if k2 > k as int {
                    assert(!holds_id(before[k as int], id as int));
                }
            }
        }
        Ok(())
    }

    /// Number of active accounts.
    pub fn count(&self) -> (r: usize)
        ensures r == active_prefix(self@, MAX_USERS as int).len(),
    {
        let mut n: usize = 0;
        let mut i: usize = 0;
        while i < 32
            invariant
                i <= 32, self@.len() == 32, n == active_prefix(self@, i as int).len(), n <= i,
            decreases 32 - i,
        {
            if self.accounts[i].flags.is_active() {
                n += 1;
            }
            i += 1;
        }
        n
    }

    /// The active accounts, in slot order.
    pub fn iter(&self) -> (r: Vec<UserAccount>)
        ensures r@ == active_prefix(self@, MAX_USERS as int),
    {
        let mut out: Vec<UserAccount> = Vec::new();
        let mut i: usize = 0;
        while i < 32
            invariant
                i <= 32, self@.len() == 32, out@ == active_prefix(self@, i as int),
            decreases 32 - i,
        {
            if self.accounts[i].flags.is_active() {
                out.push(self.accounts[i]);
            }
            i += 1;
        }
        out
    }
}

/// Whether `id` may perform privileged operations (system or admin).
pub fn is_privileged(id: UserId) -> (r: bool)
    ensures r == (id == USER_SYSTEM || id == USER_ADMIN),
{
    id == USER_SYSTEM || id == USER_ADMIN
}

/// Whether `requester` may switch the effective user to `target`.
pub fn can_setuid_to(requester: UserId, target: UserId, registry: &UserRegistry) -> (r: bool)
    ensures r == setuid_allowed(registry@, requester, target),
{
    let refused = match registry.lookup(target) {
        Some(a) => a.flags.is_locked(),
        None => true,
    };
    proof {
        assert forall|k1: int, k2: int| first_holder(registry@, target as int, k1)
            && first_holder(registry@, target as int, k2) implies k1 == k2 by {
            if k1 < k2 {
                assert(!holds_id(registry@[k1], target as int));
            } else if k2 < k1 {
                assert(!holds_id(registry@[k2], target as int));
            }
        }
    }
    if refused {
        return false;
    }
    if requester == USER_SYSTEM {
        true
    } else if requester == USER_ADMIN {
        target != USER_SYSTEM
    } else {
        false
    }
}

/// A user created by `create_user` is found again by `lookup` under its new
/// id, with the name, group and tier it was created with.
pub proof fn law_create_then_lookup(before: Seq<UserAccount>, after: Seq<UserAccount>, id: int,
    name: Seq<u8>, group: GroupId, tier: SecurityTier)
    requires created(before, after, id, name, group, tier),
    ensures
        id_in_use(after, id),
        forall|k: int| first_holder(after, id, k) ==> fresh_account(after[k], id, name, group, tier, false),
{
    let k = choose|k: int| first_free_slot(before, k) && after == before.update(k, after[k])
        && fresh_account(after[k], id, name, group, tier, false);
    assert(flag_on(1, 1)) by { lemma_flag_values(); }
    assert(holds_id(after[k], id));
    assert forall|k2: int| first_holder(after, id, k2) implies k2 == k by {
        if k2 < k {
            assert(!holds_id(after[k2], id));
        } else if k2 > k {
            assert(!holds_id(before[k2], id));
            assert(!holds_id(after[k], id));
        }
    }
}

/// Once an account is deleted from its slot, and no other slot held the same
/// id, the id is no longer in use.
pub proof fn law_delete_then_absent(before: Seq<UserAccount>, after: Seq<UserAccount>, id: int, k: int)
    requires
        first_holder(before, id, k),
        after == before.update(k, after[k]),
        after[k].is_blank(),
        forall|j: int| 0 <= j < before.len() && j != k ==> !#[trigger] holds_id(before[j], id),
    ensures
        !id_in_use(after, id),
{
    assert(!flag_on(0, 1)) by { lemma_flag_values(); }
    assert forall|j: int| 0 <= j < after.len() implies !#[trigger] holds_id(after[j], id) by {
        if j != k {
            assert(!holds_id(before[j], id));
        }
    }
}

} // verus!

//! Identity: a strictly-additive layer over a path-only workspace.
//!
//! Everything here is optional. This module only decides **when** a document
//! earns a stable ID (the trigger set) and **what** that ID looks like (the
//! mint). The default is [`NoIdentity`]: identity off, no ID ever written.
use vstd::prelude::*;

verus! {

/// A stable, opaque document identifier.
#[derive(Debug, Clone, PartialEq, Eq, Hash)]
pub struct Id(pub String);

impl View for Id {
    type V = Seq<char>;

    open spec fn view(&self) -> Seq<char> {
        self.0@
    }
}

impl Id {
    /// A copy of this id.
    pub fn clone_id(&self) -> (r: Id)
        ensures
            r@ == self@,
    {
        Id(self.0.clone())
    }

    /// The id as a string slice.
    pub fn as_str(&self) -> (r: &str)
        ensures
            r@ == self@,
    {
        self.0.as_str()
    }
}

/// Which events cause a document to be assigned (registered) an ID.
#[derive(Debug, Clone, Copy, PartialEq, Eq, Structural)]
pub struct Registration {
    /// Register every document at creation time (eager).
    pub on_create: bool,
    /// Register when a document is first referenced by ID (e.g. a wikilink).
    pub on_link: bool,
    /// Register when a document is published.
    pub on_publish: bool,
}

impl Registration {
    /// Never register: identity is effectively off.
    #[verifier::allow_in_spec]
    pub fn off() -> Registration
        returns
            (Registration { on_create: false, on_link: false, on_publish: false }),
    {
        Registration { on_create: false, on_link: false, on_publish: false }
    }

    /// Register only on a durable reference (link-by-id or publish). Recommended.
    #[verifier::allow_in_spec]
    pub fn lazy() -> Registration
        returns
            (Registration { on_create: false, on_link: true, on_publish: true }),
    {
        Registration { on_create: false, on_link: true, on_publish: true }
    }

    /// Register every document the moment it is created.
    #[verifier::allow_in_spec]
    pub fn eager() -> Registration
        returns
            (Registration { on_create: true, on_link: true, on_publish: true }),
    {
        Registration { on_create: true, on_link: true, on_publish: true }
    }

    /// Whether any trigger is active.
    pub open spec fn spec_is_active(&self) -> bool {
        self.on_create || self.on_link || self.on_publish
    }

    /// Whether any trigger is active.
    #[verifier::when_used_as_spec(spec_is_active)]
    pub fn is_active(&self) -> (r: bool)
        ensures
            r == self.spec_is_active(),
    {
        self.on_create || self.on_link || self.on_publish
    }
}

/// A policy deciding when to register documents and how their IDs are minted.
pub trait IdentityPolicy {
    /// Whether the policy can mint another ID without running out of its scheme.
    spec fn can_mint(&self) -> bool;

    /// The registration trigger set for this policy.
    fn registration(&self) -> Registration;

    /// Mint a fresh ID for the document at `path`. Only called when a trigger
    /// fires, so a disabled policy need never produce a meaningful value.
    fn mint(&mut self, path: &str) -> Id
        requires
            old(self).can_mint(),
    ;
}

/// Identity disabled, the default. Paths only; no ID is ever minted or written.
#[derive(Debug, Clone, Copy, Default)]
pub struct NoIdentity;

impl IdentityPolicy for NoIdentity {
    open spec fn can_mint(&self) -> bool {
        true
    }

    fn registration(&self) -> (r: Registration)
        ensures
            r == Registration::off(),
    {
        Registration::off()
    }

    fn mint(&mut self, _path: &str) -> (r: Id)
        ensures
            r@ == Seq::<char>::empty(),
    {
        Id(String::new())
    }
}

/// A minting identity policy with a configurable trigger set.
///
/// The ID scheme is sequential base-36 (`0`, `1`, …, `z`, `10`, …).
#[derive(Debug, Clone)]
pub struct Minter {
    registration: Registration,
    next: u64,
}

impl Minter {
    /// The trigger set this minter was built with.
    pub closed spec fn spec_registration(&self) -> Registration {
        self.registration
    }

    /// The number the next minted ID will spell.
    pub closed spec fn next_number(&self) -> nat {
        self.next as nat
    }

    /// Register only on a durable reference (the recommended default).
    pub fn lazy() -> (m: Self)
        ensures
            m.spec_registration() == Registration::lazy(),
            m.next_number() == 0,
    {
        Minter { registration: Registration::lazy(), next: 0 }
    }

    /// Register every document at creation.
    pub fn eager() -> (m: Self)
        ensures
            m.spec_registration() == Registration::eager(),
            m.next_number() == 0,
    {
        Minter { registration: Registration::eager(), next: 0 }
    }

    /// Register on a custom trigger set.
    pub fn with(registration: Registration) -> (m: Self)
        ensures
            m.spec_registration() == registration,
            m.next_number() == 0,
    {
        Minter { registration, next: 0 }
    }
}

impl IdentityPolicy for Minter {
    open spec fn can_mint(&self) -> bool {
        self.next_number() < u64::MAX
    }

    fn registration(&self) -> (r: Registration)
        ensures
            r == self.spec_registration(),
    {
        self.registration
    }

    fn mint(&mut self, _path: &str) -> (r: Id)
        ensures
            r@ == base36(old(self).next_number()),
            final(self).next_number() == old(self).next_number() + 1,
            final(self).spec_registration() == old(self).spec_registration(),
    {
        let n = self.next;
        self.next = self.next + 1;
        Id(to_base36(n))
    }
}

/// A fresh minter that mints `k` times in a row (each [`Minter::mint`] spells
/// the minter's number and moves it on by one, as `ids` and `ms` record) mints
/// `0`, `1`, … `k - 1` in base 36, whatever paths it was given: the `j`-th ID
/// spells `j`, so no two of them are the same; and it keeps its trigger set.
pub proof fn law_minted_ids_count_up(ms: Seq<Minter>, ids: Seq<Seq<char>>)
    requires
        ms.len() == ids.len() + 1,
        ms[0].next_number() == 0,
        forall|j: int| 0 <= j < ids.len() ==> #[trigger] ids[j] == base36(ms[j].next_number())
            && ms[j + 1].next_number() == ms[j].next_number() + 1
            && ms[j + 1].spec_registration() == ms[j].spec_registration(),
    ensures
        forall|j: int| 0 <= j < ids.len() ==> #[trigger] ids[j] == base36(j as nat),
        forall|a: int, b: int| 0 <= a < b < ids.len() ==> ids[a] != ids[b],
        forall|j: int| 0 <= j < ms.len() ==> (#[trigger] ms[j]).spec_registration() == ms[0].spec_registration(),
{
    lemma_minter_numbers(ms, ids, ids.len() as int);
    lemma_minter_registration(ms, ids, ids.len() as int);
    assert forall|j: int| 0 <= j < ids.len() implies #[trigger] ids[j] == base36(j as nat) by {
        assert(ms[j].next_number() == j);
    }
    assert forall|a: int, b: int| 0 <= a < b < ids.len() implies ids[a] != ids[b] by {
        if ids[a] == ids[b] {
            assert(ids[a] == base36(a as nat));
            assert(ids[b] == base36(b as nat));
            lemma_base36_injective(a as nat, b as nat);
        }
    }
}

/// The minter after `n` mints keeps its trigger set.
proof fn lemma_minter_registration(ms: Seq<Minter>, ids: Seq<Seq<char>>, n: int)
    requires
        ms.len() == ids.len() + 1,
        forall|j: int| 0 <= j < ids.len() ==> #[trigger] ids[j] == base36(ms[j].next_number())
            && ms[j + 1].next_number() == ms[j].next_number() + 1
            && ms[j + 1].spec_registration() == ms[j].spec_registration(),
        0 <= n <= ids.len(),
    ensures
        forall|j: int| 0 <= j <= n ==> (#[trigger] ms[j]).spec_registration() == ms[0].spec_registration(),
    decreases n,
{
    if n > 0 {
        lemma_minter_registration(ms, ids, n - 1);
        assert(ids[n - 1] == base36(ms[n - 1].next_number()));
    }
}

/// The minter after `n` mints holds the number `n`.
proof fn lemma_minter_numbers(ms: Seq<Minter>, ids: Seq<Seq<char>>, n: int)
    requires
        ms.len() == ids.len() + 1,
        ms[0].next_number() == 0,
        forall|j: int| 0 <= j < ids.len() ==> #[trigger] ids[j] == base36(ms[j].next_number())
            && ms[j + 1].next_number() == ms[j].next_number() + 1
            && ms[j + 1].spec_registration() == ms[j].spec_registration(),
        0 <= n <= ids.len(),
    ensures
        forall|j: int| 0 <= j <= n ==> (#[trigger] ms[j]).next_number() == j,
    decreases n,
{
    if n > 0 {
        lemma_minter_numbers(ms, ids, n - 1);
        assert(ids[n - 1] == base36(ms[n - 1].next_number()));
    }
}

/// The base-36 digit character for `d` (`0`-`9`, then `a`-`z`).
pub open spec fn base36_digit(d: nat) -> char {
    if d < 10 {
        (48 + d) as char
    } else {
        (87 + d) as char
    }
}

/// `n` spelled in base 36, most-significant digit first, with no leading zeros
/// (`0` spells as `"0"`).
pub open spec fn base36(n: nat) -> Seq<char>
    decreases n,
{
    if n < 36 {
        seq![base36_digit(n)]
    } else {
        base36(n / 36).push(base36_digit(n % 36))
    }
}

/// Distinct numbers spell distinct base-36 strings, so a minter that never
/// reuses a number never reissues an ID.
pub proof fn lemma_base36_injective(a: nat, b: nat)
    requires
        base36(a) == base36(b),
    ensures
        a == b,
    decreases a,
{
    if a < 36 && b < 36 {
        let da = base36_digit(a);
        let db = base36_digit(b);
        assert(base36(a) == seq![da]);
        assert(base36(b) == seq![db]);
        assert(seq![da][0] == da);
        assert(seq![db][0] == db);
        assert(da == db);
        lemma_base36_digit_injective(a, b);
    } else if a >= 36 && b >= 36 {
        let sa = base36(a);
        let sb = base36(b);
        assert(sa.last() == sb.last());
        assert(sa.drop_last() =~= base36(a / 36));
        assert(sb.drop_last() =~= base36(b / 36));
        lemma_base36_injective(a / 36, b / 36);
        lemma_base36_digit_injective(a % 36, b % 36);
    } else {
        lemma_base36_len(a);
        lemma_base36_len(b);
    }
}

/// Distinct digit values have distinct digit characters.
pub proof fn lemma_base36_digit_injective(a: nat, b: nat)
    requires
        a < 36,
        b < 36,
        base36_digit(a) == base36_digit(b),
    ensures
        a == b,
{
    let ca = base36_digit(a);
    let cb = base36_digit(b);
    assert(ca as int == cb as int);
    if a < 10 {
        assert(ca as int == 48 + a);
    } else {
        assert(ca as int == 87 + a);
    }
    if b < 10 {
        assert(cb as int == 48 + b);
    } else {
        assert(cb as int == 87 + b);
    }
}

/// A number of 36 or more spells with at least two digits; a smaller one with one.
pub proof fn lemma_base36_len(n: nat)
    ensures
        n < 36 ==> base36(n).len() == 1,
        n >= 36 ==> base36(n).len() >= 2,
    decreases n,
{
    if n >= 36 {
        lemma_base36_len(n / 36);
    }
}

/// The value of a base-36 digit character (`0`-`9` are 0-9, `a`-`z` are 10-35).
pub open spec fn base36_digit_value(c: char) -> nat {
    if '0' <= c && c <= '9' {
        (c as int - 48) as nat
    } else {
        (c as int - 87) as nat
    }
}

/// Whether `c` is a base-36 digit character: `0`-`9` or `a`-`z`.
pub open spec fn is_base36_digit(c: char) -> bool {
    ('0' <= c && c <= '9') || ('a' <= c && c <= 'z')
}

/// The number a base-36 string spells, most-significant digit first.
pub open spec fn base36_value(s: Seq<char>) -> nat
    decreases s.len(),
{
    if s.len() == 0 {
        0
    } else {
        base36_value(s.drop_last()) * 36 + base36_digit_value(s.last())
    }
}

/// A digit value spells as a digit character and reads back as itself.
proof fn lemma_base36_digit_round_trip(d: nat)
    requires
        d < 36,
    ensures
        is_base36_digit(base36_digit(d)),
        base36_digit_value(base36_digit(d)) == d,
        base36_digit(d) == '0' <==> d == 0,
{
    let c = base36_digit(d);
    if d < 10 {
        assert(c as int == 48 + d);
    } else {
        assert(c as int == 87 + d);
    }
}

/// What `to_base36` spells is a well-formed base-36 numeral that parses back
/// to the number: it is not empty, every character is a digit `0`-`9` or
/// `a`-`z`, it has no leading zero unless it is `"0"` itself, and its value is
/// the number it was made from.
pub proof fn law_base36_parses_back(n: nat)
    ensures
        base36(n).len() > 0,
        forall|i: int| 0 <= i < base36(n).len() ==> is_base36_digit(#[trigger] base36(n)[i]),
        base36(n) == seq!['0'] || base36(n)[0] != '0',
        base36_value(base36(n)) == n,
    decreases n,
{
    if n < 36 {
        lemma_base36_digit_round_trip(n);
        let s = base36(n);
        assert(s.drop_last() =~= Seq::<char>::empty());
        assert(s.last() == base36_digit(n));
        assert(base36_value(s) == base36_value(s.drop_last()) * 36 + base36_digit_value(s.last()));
        if n == 0 {
            assert(s =~= seq!['0']);
        }
    } else {
        law_base36_parses_back(n / 36);
        lemma_base36_digit_round_trip(n % 36);
        let s = base36(n);
        let p = base36(n / 36);
        assert(s.drop_last() =~= p);
        assert(s[0] == p[0]);
        assert forall|i: int| 0 <= i < s.len() implies is_base36_digit(#[trigger] s[i]) by {
            if i < p.len() {
                assert(s[i] == p[i]);
            }
        }
        if p =~= seq!['0'] {
            assert(p.drop_last() =~= Seq::<char>::empty());
            assert(p.last() == '0');
            assert(('0' as int) == 48);
            assert(base36_value(p.drop_last()) == 0);
            assert(base36_digit_value(p.last()) == 0);
            assert(base36_value(p) == base36_value(p.drop_last()) * 36 + base36_digit_value(p.last()));
            assert(false);
        }
        assert(s.last() == base36_digit(n % 36));
        assert(base36_value(s) == base36_value(p) * 36 + base36_digit_value(s.last()));
        assert(n == (n / 36) * 36 + n % 36);
    }
}

/// Append `n` in base 36 to `out`.
fn push_base36(n: u64, out: &mut String)
    ensures
        final(out)@ == old(out)@ + base36(n as nat),
    decreases n,
{
    if n >= 36 {
        push_base36(n / 36, out);
    }
    let d = n % 36;
    let c: char = if d < 10 { ((48 + d) as u8) as char } else { ((87 + d) as u8) as char };
    out.push(c);
}

/// Render `n` in base-36 (0-9a-z), least-significant digit last. `0` renders as `"0"`.
pub fn to_base36(n: u64) -> (s: String)
    ensures
        s@ == base36(n as nat),
{
    let mut s = String::new();
    push_base36(n, &mut s);
    s
}

} // verus!

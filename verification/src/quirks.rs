use vstd::prelude::*;

use crate::error::DataError;
use crate::fitting::find_weapon;
use crate::fitting::weapon_named;
use crate::mwo_types::Decimal;
use crate::mwo_types::Equipment;
use crate::mwo_types::Variant;
use crate::mwo_types::Weapon;
use crate::search::first_index;
use crate::search::lemma_first_index;
use crate::text::chars_view;
use crate::text::lowercased;
use crate::text::split;
use crate::text::split_spec;
use crate::text::starts_with;
use crate::text::str_eq;
use crate::text::strings_view;
use crate::text::to_chars;
use crate::text::to_lowercase;

verus! {

/// The sum of the quirks of one kind that bear on one weapon, in millionths.
#[derive(Debug)]
pub struct QuirkTotal {
    pub weapon: String,
    pub kind: String,
    pub value: i128,
}

/// The quirk totals of a variant: for each weapon and kind of quirk at most
/// one entry.
#[derive(Debug)]
pub struct QuirkTotals {
    pub entries: Vec<QuirkTotal>,
}

/// The totals as a map from weapon and kind to the sum.
pub type TotalsMap = Map<(Seq<char>, Seq<char>), int>;

/// The weapon and kind that an entry is filed under.
pub open spec fn total_key(entry: QuirkTotal) -> (Seq<char>, Seq<char>) {
    (entry.weapon@, entry.kind@)
}

/// The map that a run of entries stands for.
pub open spec fn totals_map(entries: Seq<QuirkTotal>) -> TotalsMap
    decreases entries.len(),
{
    if entries.len() == 0 {
        Map::empty()
    } else {
        totals_map(entries.drop_last()).insert(
            total_key(entries.last()),
            entries.last().value as int,
        )
    }
}

/// No two entries are filed under the same weapon and kind.
pub open spec fn keys_distinct(entries: Seq<QuirkTotal>) -> bool {
    forall|i: int, j: int|
        0 <= i < j < entries.len() ==> total_key(#[trigger] entries[i]) != total_key(
            #[trigger] entries[j],
        )
}

/// Every sum lies within `limit` of zero.
pub open spec fn within(entries: Seq<QuirkTotal>, limit: int) -> bool {
    forall|i: int| 0 <= i < entries.len() ==> -limit <= (#[trigger] entries[i]).value <= limit
}

/// The totals with `amount` more under `weapon` and `kind`.
pub open spec fn add_gain(
    totals: TotalsMap,
    weapon: Seq<char>,
    kind: Seq<char>,
    amount: int,
) -> TotalsMap {
    let key = (weapon, kind);
    let so_far = if totals.dom().contains(key) {
        totals[key]
    } else {
        0
    };
    totals.insert(key, so_far + amount)
}

/// `after` is `before` with `amount` added to the entry under `weapon` and
/// `kind`, or with a new last entry of that amount where there was none.
pub open spec fn added(
    before: Seq<QuirkTotal>,
    after: Seq<QuirkTotal>,
    weapon: Seq<char>,
    kind: Seq<char>,
    amount: int,
) -> bool {
    ||| exists|i: int|
        {
            &&& 0 <= i < before.len()
            &&& total_key(#[trigger] before[i]) == (weapon, kind)
            &&& after.len() == before.len()
            &&& total_key(after[i]) == (weapon, kind)
            &&& after[i].value == before[i].value + amount
            &&& forall|k: int| 0 <= k < before.len() && k != i ==> after[k] == before[k]
        }
    ||| {
        &&& forall|i: int| 0 <= i < before.len() ==> total_key(#[trigger] before[i]) != (weapon, kind)
        &&& after.len() == before.len() + 1
        &&& after.drop_last() == before
        &&& total_key(after.last()) == (weapon, kind)
        &&& after.last().value == amount
    }
}

/// A key that no entry is filed under is no key of the map.
proof fn lemma_totals_absent(entries: Seq<QuirkTotal>, key: (Seq<char>, Seq<char>))
    requires
        forall|i: int| 0 <= i < entries.len() ==> total_key(#[trigger] entries[i]) != key,
    ensures
        !totals_map(entries).dom().contains(key),
    decreases entries.len(),
{
    if entries.len() > 0 {
        lemma_totals_absent(entries.drop_last(), key);
    }
}

/// The map holds each entry's sum under the entry's key.
proof fn lemma_totals_present(entries: Seq<QuirkTotal>, i: int)
    requires
        keys_distinct(entries),
        0 <= i < entries.len(),
    ensures
        totals_map(entries).dom().contains(total_key(entries[i])),
        totals_map(entries)[total_key(entries[i])] == entries[i].value,
    decreases entries.len(),
{
    if i < entries.len() - 1 {
        let rest = entries.drop_last();
        assert(keys_distinct(rest)) by {
            assert forall|a: int, b: int| 0 <= a < b < rest.len() implies total_key(
                #[trigger] rest[a],
            ) != total_key(#[trigger] rest[b]) by {}
        }
        lemma_totals_present(rest, i);
    }
}

/// Changing the sum of one entry changes the map at its key alone.
proof fn lemma_totals_changed(before: Seq<QuirkTotal>, after: Seq<QuirkTotal>, i: int)
    requires
        0 <= i < before.len(),
        after.len() == before.len(),
        total_key(after[i]) == total_key(before[i]),
        forall|k: int| 0 <= k < before.len() && k != i ==> after[k] == before[k],
        keys_distinct(before),
    ensures
        totals_map(after) == totals_map(before).insert(
            total_key(before[i]),
            after[i].value as int,
        ),
        keys_distinct(after),
    decreases before.len(),
{
    assert(keys_distinct(after)) by {
        assert forall|a: int, b: int| 0 <= a < b < after.len() implies total_key(
            #[trigger] after[a],
        ) != total_key(#[trigger] after[b]) by {}
    }
    let last = before.len() - 1;
    if i == last {
        assert(after.drop_last() == before.drop_last());
    } else {
        let b = before.drop_last();
        let a = after.drop_last();
        assert(keys_distinct(b)) by {
            assert forall|x: int, y: int| 0 <= x < y < b.len() implies total_key(#[trigger] b[x])
                != total_key(#[trigger] b[y]) by {}
        }
        assert forall|k: int| 0 <= k < b.len() && k != i implies a[k] == b[k] by {}
        lemma_totals_changed(b, a, i);
    }
}

/// What `added` means for the map, and for the bounds of the sums.
pub proof fn lemma_added(
    before: Seq<QuirkTotal>,
    after: Seq<QuirkTotal>,
    weapon: Seq<char>,
    kind: Seq<char>,
    amount: int,
    limit: int,
    step: int,
)
    requires
        added(before, after, weapon, kind, amount),
        keys_distinct(before),
        within(before, limit),
        -step <= amount <= step,
        0 <= limit,
    ensures
        keys_distinct(after),
        totals_map(after) == add_gain(totals_map(before), weapon, kind, amount),
        within(after, limit + step),
{
    let key = (weapon, kind);
    if forall|i: int| 0 <= i < before.len() ==> total_key(#[trigger] before[i]) != key {
        lemma_totals_absent(before, key);
        assert forall|a: int, b: int| 0 <= a < b < after.len() implies total_key(
            #[trigger] after[a],
        ) != total_key(#[trigger] after[b]) by {
            assert(after[a] == before[a]);
            if b < before.len() {
                assert(after[b] == before[b]);
            }
        }
        assert forall|i: int| 0 <= i < after.len() implies -(limit + step) <= (
        #[trigger] after[i]).value <= limit + step by {
            if i < before.len() {
                assert(after[i] == before[i]);
            }
        }
    } else {
        let i = choose|i: int|
            {
                &&& 0 <= i < before.len()
                &&& total_key(#[trigger] before[i]) == (weapon, kind)
                &&& after.len() == before.len()
                &&& total_key(after[i]) == (weapon, kind)
                &&& after[i].value == before[i].value + amount
                &&& forall|k: int| 0 <= k < before.len() && k != i ==> after[k] == before[k]
            };
        lemma_totals_present(before, i);
        lemma_totals_changed(before, after, i);
        assert forall|k: int| 0 <= k < after.len() implies -(limit + step) <= (
        #[trigger] after[k]).value <= limit + step by {}
    }
}

impl QuirkTotals {
    pub open spec fn well_formed(&self) -> bool {
        keys_distinct(self.entries@)
    }

    /// No totals yet.
    pub fn new() -> (totals: QuirkTotals)
        ensures
            totals.well_formed(),
            totals@ == Map::<(Seq<char>, Seq<char>), int>::empty(),
            totals.entries@.len() == 0,
    {
        QuirkTotals { entries: Vec::new() }
    }

    /// The sum filed under `weapon` and `kind`, if there is one.
    pub fn get(&self, weapon: &str, kind: &str) -> (sum: Option<i128>)
        requires
            self.well_formed(),
        ensures
            match sum {
                Some(value) => self@.dom().contains((weapon@, kind@)) && self@[(weapon@, kind@)]
                    == value,
                None => !self@.dom().contains((weapon@, kind@)),
            },
    {
        let mut i: usize = 0;
        while i < self.entries.len()
            invariant
                self.well_formed(),
                i <= self.entries@.len(),
                forall|k: int| 0 <= k < i ==> total_key(#[trigger] self.entries@[k]) != (weapon@, kind@),
            decreases self.entries@.len() - i,
        {
            if str_eq(self.entries[i].weapon.as_str(), weapon) && str_eq(
                self.entries[i].kind.as_str(),
                kind,
            ) {
                proof {
                    lemma_totals_present(self.entries@, i as int);
                }
                return Some(self.entries[i].value);
            }
            i = i + 1;
        }
        proof {
            lemma_totals_absent(self.entries@, (weapon@, kind@));
        }
        None
    }

    /// Adds `amount` to the sum under `weapon` and `kind`, which starts at
    /// nothing.
    pub fn add(&mut self, weapon: &str, kind: &str, amount: i128)
        requires
            old(self).well_formed(),
            forall|i: int|
                0 <= i < old(self).entries@.len() ==> i128::MIN <= (
                #[trigger] old(self).entries@[i]).value + amount <= i128::MAX,
        ensures
            final(self).well_formed(),
            added(old(self).entries@, final(self).entries@, weapon@, kind@, amount as int),
            final(self)@ == add_gain(old(self)@, weapon@, kind@, amount as int),
    {
        let ghost before = self.entries@;
        let mut i: usize = 0;
        while i < self.entries.len()
            invariant
                self.entries@ == before,
                before == old(self).entries@,
                keys_distinct(before),
                forall|k: int|
                    0 <= k < before.len() ==> i128::MIN <= (#[trigger] before[k]).value + amount
                        <= i128::MAX,
                i <= before.len(),
                forall|k: int| 0 <= k < i ==> total_key(#[trigger] before[k]) != (weapon@, kind@),
            decreases before.len() - i,
        {
            if str_eq(self.entries[i].weapon.as_str(), weapon) && str_eq(
                self.entries[i].kind.as_str(),
                kind,
            ) {
                let entry = QuirkTotal {
                    weapon: self.entries[i].weapon.clone(),
                    kind: self.entries[i].kind.clone(),
                    value: self.entries[i].value + amount,
                };
                self.entries.set(i, entry);
                proof {
                    lemma_totals_present(before, i as int);
                    lemma_totals_changed(before, self.entries@, i as int);
                }
                return ;
            }
            i = i + 1;
        }
        let entry = QuirkTotal { weapon: weapon.to_owned(), kind: kind.to_owned(), value: amount };
        self.entries.push(entry);
        proof {
            assert(self.entries@.drop_last() == before);
            lemma_totals_absent(before, (weapon@, kind@));
            assert forall|a: int, b: int| 0 <= a < b < self.entries@.len() implies total_key(
                #[trigger] self.entries@[a],
            ) != total_key(#[trigger] self.entries@[b]) by {}
        }
    }
}

impl View for QuirkTotals {
    type V = Map<(Seq<char>, Seq<char>), int>;

    open spec fn view(&self) -> Map<(Seq<char>, Seq<char>), int> {
        totals_map(self.entries@)
    }
}

/// What a quirk's name says of a weapon.
pub ghost enum QuirkReading {
    /// The name begins with none of the weapon's prefixes.
    Unrelated,
    /// It begins with one, and what follows is not a kind and a way of
    /// counting.
    Malformed,
    /// It names a kind of quirk and how its value counts.
    Shaped { kind: Seq<char>, math: Seq<char> },
}

/// The prefixes by which a quirk's name addresses a weapon with these
/// hardpoint aliases: for each alias in turn, the alias in lower case with an
/// underscore, then `all_`.
pub open spec fn quirk_prefixes(aliases: Seq<String>) -> Seq<Seq<char>>
    decreases aliases.len(),
{
    if aliases.len() == 0 {
        Seq::empty()
    } else {
        quirk_prefixes(aliases.drop_last()).push(lowercased(aliases.last()@).push('_')).push(
            "all_"@,
        )
    }
}

/// How the quirk `name` reads against the prefixes: the last prefix that it
/// begins with decides, and one that leaves anything but two parts between
/// underscores makes it malformed.
pub open spec fn quirk_reading(name: Seq<char>, prefixes: Seq<Seq<char>>) -> QuirkReading
    decreases prefixes.len(),
{
    if prefixes.len() == 0 {
        QuirkReading::Unrelated
    } else {
        let earlier = quirk_reading(name, prefixes.drop_last());
        let prefix = prefixes.last();
        if earlier is Malformed {
            QuirkReading::Malformed
        } else if prefix.is_prefix_of(name) {
            let parts = split_spec(name.subrange(prefix.len() as int, name.len() as int), '_');
            if parts.len() == 2 {
                QuirkReading::Shaped { kind: parts[0], math: parts[1] }
            } else {
                QuirkReading::Malformed
            }
        } else {
            earlier
        }
    }
}

/// A value as a percentage, rounded to a whole number with halves away from
/// zero: for a value in millionths, the value over ten thousand.
pub open spec fn rounded_percent(value: int) -> int {
    if value >= 0 {
        (value + 5000) / 10000
    } else {
        -((5000 - value) / 10000)
    }
}

/// What a quirk of `value` adds to its total, in millionths: a multiplier
/// counts as a whole percentage, anything else as it stands.
pub open spec fn quirk_amount(math: Seq<char>, value: int) -> int {
    if math == "multiplier"@ {
        rounded_percent(value) * 1_000_000
    } else {
        value
    }
}

/// What a quirk adds to the totals of a weapon.
pub ghost enum QuirkGain {
    Nothing,
    Malformed,
    Amount { kind: Seq<char>, amount: int },
}

/// Whether quirks of `kind` are lost on `weapon`: those on the cooldown of a
/// weapon without cooldown, and those on the velocity of a weapon whose
/// projectiles have no speed.
pub open spec fn inapplicable(weapon: Weapon, kind: Seq<char>) -> bool {
    ||| kind == "cooldown"@ && weapon.cooldown.micros == 0
    ||| kind == "velocity"@ && weapon.speed == 0
}

/// What the quirk `name` of `value` adds for `weapon`: nothing where it does
/// not address the weapon, nor where it changes a cooldown or a velocity that
/// the weapon does not have.
pub open spec fn quirk_gain(
    weapon: Weapon,
    prefixes: Seq<Seq<char>>,
    name: Seq<char>,
    value: int,
) -> QuirkGain {
    match quirk_reading(name, prefixes) {
        QuirkReading::Unrelated => QuirkGain::Nothing,
        QuirkReading::Malformed => QuirkGain::Malformed,
        QuirkReading::Shaped { kind, math } => if inapplicable(weapon, kind) {
            QuirkGain::Nothing
        } else {
            QuirkGain::Amount { kind, amount: quirk_amount(math, value) }
        },
    }
}

/// The totals after the quirks of a variant have been read for one weapon.
pub open spec fn weapon_quirks(
    totals: TotalsMap,
    weapon: Weapon,
    quirks: Seq<(String, Decimal)>,
) -> Result<TotalsMap, DataError>
    decreases quirks.len(),
{
    if quirks.len() == 0 {
        Ok(totals)
    } else {
        match weapon_quirks(totals, weapon, quirks.drop_last()) {
            Err(e) => Err(e),
            Ok(so_far) => match quirk_gain(
                weapon,
                quirk_prefixes(weapon.hardpoint_aliases@),
                quirks.last().0@,
                quirks.last().1.micros as int,
            ) {
                QuirkGain::Nothing => Ok(so_far),
                QuirkGain::Malformed => Err(DataError::MalformedQuirkName),
                QuirkGain::Amount { kind, amount } => Ok(
                    add_gain(so_far, weapon.name@, kind, amount),
                ),
            },
        }
    }
}

/// The quirk totals of a variant for the chosen weapons, each looked up by
/// its name among `weapons`.
pub open spec fn relevant_quirks(
    weapons: Seq<Weapon>,
    quirks: Seq<(String, Decimal)>,
    chosen: Seq<(String, i32, Decimal)>,
) -> Result<TotalsMap, DataError>
    decreases chosen.len(),
{
    if chosen.len() == 0 {
        Ok(Map::empty())
    } else {
        match relevant_quirks(weapons, quirks, chosen.drop_last()) {
            Err(e) => Err(e),
            Ok(so_far) => weapon_quirks(
                so_far,
                weapons[first_index(weapons, weapon_named(chosen.last().0@)).unwrap()],
                quirks,
            ),
        }
    }
}

/// Reading the quirks for one weapon files nothing under another weapon, nor
/// under a kind that is lost on the weapon.
proof fn lemma_weapon_quirks_keys(
    totals: TotalsMap,
    weapon: Weapon,
    quirks: Seq<(String, Decimal)>,
    name: Seq<char>,
    kind: Seq<char>,
)
    requires
        !totals.dom().contains((name, kind)),
        weapon.name@ != name || inapplicable(weapon, kind),
    ensures
        weapon_quirks(totals, weapon, quirks) matches Ok(after) ==> !after.dom().contains(
            (name, kind),
        ),
    decreases quirks.len(),
{
    if quirks.len() > 0 {
        lemma_weapon_quirks_keys(totals, weapon, quirks.drop_last(), name, kind);
    }
}

/// Quirks that are lost on a weapon are absent from its totals: where the
/// weapon called `name` has no cooldown, or no speed, nothing is filed under
/// its name and that kind.
pub proof fn lemma_inapplicable_quirks_are_absent(
    weapons: Seq<Weapon>,
    quirks: Seq<(String, Decimal)>,
    chosen: Seq<(String, i32, Decimal)>,
    name: Seq<char>,
    kind: Seq<char>,
)
    requires
        forall|i: int|
            0 <= i < chosen.len() ==> first_index(weapons, weapon_named((#[trigger] chosen[i]).0@))
                is Some,
        first_index(weapons, weapon_named(name)) matches Some(w) && inapplicable(weapons[w], kind),
    ensures
        relevant_quirks(weapons, quirks, chosen) matches Ok(totals) ==> !totals.dom().contains(
            (name, kind),
        ),
    decreases chosen.len(),
{
    if chosen.len() > 0 {
        let earlier = chosen.drop_last();
        assert forall|i: int| 0 <= i < earlier.len() implies first_index(
            weapons,
            weapon_named((#[trigger] earlier[i]).0@),
        ) is Some by {
            assert(earlier[i] == chosen[i]);
        }
        lemma_inapplicable_quirks_are_absent(weapons, quirks, earlier, name, kind);
        if relevant_quirks(weapons, quirks, earlier) is Ok {
            let so_far = relevant_quirks(weapons, quirks, earlier)->Ok_0;
            let wanted = chosen.last().0@;
            lemma_first_index(weapons, weapon_named(wanted));
            let weapon = weapons[first_index(weapons, weapon_named(wanted)).unwrap()];
            assert(weapon.name@ == wanted);
            lemma_weapon_quirks_keys(so_far, weapon, quirks, name, kind);
        }
    }
}

/// A fault met in the quirks read so far is the outcome of reading them all.
proof fn lemma_weapon_quirks_fault(
    totals: TotalsMap,
    weapon: Weapon,
    quirks: Seq<(String, Decimal)>,
    n: int,
)
    requires
        0 <= n <= quirks.len(),
        weapon_quirks(totals, weapon, quirks.subrange(0, n)) is Err,
    ensures
        weapon_quirks(totals, weapon, quirks) == weapon_quirks(
            totals,
            weapon,
            quirks.subrange(0, n),
        ),
    decreases quirks.len(),
{
    if n == quirks.len() {
        assert(quirks.subrange(0, n) == quirks);
    } else {
        assert(quirks.drop_last().subrange(0, n) == quirks.subrange(0, n));
        lemma_weapon_quirks_fault(totals, weapon, quirks.drop_last(), n);
    }
}

/// A fault met for the weapons read so far is the outcome for them all.
proof fn lemma_relevant_quirks_fault(
    weapons: Seq<Weapon>,
    quirks: Seq<(String, Decimal)>,
    chosen: Seq<(String, i32, Decimal)>,
    n: int,
)
    requires
        0 <= n <= chosen.len(),
        relevant_quirks(weapons, quirks, chosen.subrange(0, n)) is Err,
    ensures
        relevant_quirks(weapons, quirks, chosen) == relevant_quirks(
            weapons,
            quirks,
            chosen.subrange(0, n),
        ),
    decreases chosen.len(),
{
    if n == chosen.len() {
        assert(chosen.subrange(0, n) == chosen);
    } else {
        assert(chosen.drop_last().subrange(0, n) == chosen.subrange(0, n));
        lemma_relevant_quirks_fault(weapons, quirks, chosen.drop_last(), n);
    }
}

/// The prefixes by which quirks address a weapon with these aliases.
pub fn prefixes_of(aliases: &Vec<String>) -> (prefixes: Vec<Vec<char>>)
    ensures
        chars_view(prefixes@) == quirk_prefixes(aliases@),
{
    let mut prefixes: Vec<Vec<char>> = Vec::new();
    let mut i: usize = 0;
    while i < aliases.len()
        invariant
            i <= aliases@.len(),
            chars_view(prefixes@) == quirk_prefixes(aliases@.subrange(0, i as int)),
        decreases aliases@.len() - i,
    {
        assert(aliases@.subrange(0, i + 1).drop_last() == aliases@.subrange(0, i as int));
        let lower = to_lowercase(aliases[i].as_str());
        let mut own = to_chars(lower.as_str());
        own.push('_');
        let all = to_chars("all_");
        prefixes.push(own);
        prefixes.push(all);
        i = i + 1;
    }
    assert(aliases@.subrange(0, i as int) == aliases@);
    prefixes
}

/// How the quirk `name` reads against `prefixes`: its kind and its way of
/// counting, `None` where it begins with none of them.
pub fn read_quirk_name(name: &str, prefixes: &Vec<Vec<char>>) -> (r: Result<
    Option<(String, String)>,
    DataError,
>)
    ensures
        match r {
            Ok(Some((kind, math))) => quirk_reading(name@, chars_view(prefixes@))
                == (QuirkReading::Shaped { kind: kind@, math: math@ }),
            Ok(None) => quirk_reading(name@, chars_view(prefixes@)) == QuirkReading::Unrelated,
            Err(e) => e == DataError::MalformedQuirkName && quirk_reading(
                name@,
                chars_view(prefixes@),
            ) == QuirkReading::Malformed,
        },
{
    let chars = to_chars(name);
    let mut shape: Option<(String, String)> = None;
    let mut malformed: bool = false;
    let mut i: usize = 0;
    let ghost all = chars_view(prefixes@);
    while i < prefixes.len()
        invariant
            chars@ == name@,
            all == chars_view(prefixes@),
            i <= prefixes@.len(),
            malformed ==> quirk_reading(name@, all.subrange(0, i as int)) == QuirkReading::Malformed,
            !malformed ==> match shape {
                Some((kind, math)) => quirk_reading(name@, all.subrange(0, i as int))
                    == (QuirkReading::Shaped { kind: kind@, math: math@ }),
                None => quirk_reading(name@, all.subrange(0, i as int)) == QuirkReading::Unrelated,
            },
        decreases prefixes@.len() - i,
    {
        assert(all.subrange(0, i + 1).drop_last() == all.subrange(0, i as int));
        if !malformed && starts_with(chars.as_slice(), prefixes[i].as_slice()) {
            let tail = name.substring_char(prefixes[i].len(), chars.len());
            let mut parts = split(tail, '_');
            if parts.len() == 2 {
                let math = parts.pop().unwrap();
                let kind = parts.pop().unwrap();
                shape = Some((kind, math));
            } else {
                malformed = true;
            }
        }
        i = i + 1;
    }
    assert(all.subrange(0, i as int) == all);
    if malformed {
        Err(DataError::MalformedQuirkName)
    } else {
        Ok(shape)
    }
}

/// The largest amount that one quirk can add, either way.
pub const GAIN_LIMIT: i128 = 0x40_0000_0000_0000_0000;

/// What a quirk of `value` adds to its total.
pub fn amount_of(math: &str, value: Decimal) -> (amount: i128)
    ensures
        amount == quirk_amount(math@, value.micros as int),
        -GAIN_LIMIT <= amount <= GAIN_LIMIT,
{
    let wide: i128 = value.micros as i128;
    if str_eq(math, "multiplier") {
        let percent: i128 = if wide >= 0 {
            (wide + 5000) / 10000
        } else {
            -((5000 - wide) / 10000)
        };
        percent * 1_000_000
    } else {
        wide
    }
}

/// What the quirk `name` of `value` adds for `weapon`, which quirks address
/// by `prefixes`: the kind and the amount, if anything.
pub fn gain_of(weapon: &Weapon, prefixes: &Vec<Vec<char>>, name: &str, value: Decimal) -> (r:
    Result<Option<(String, i128)>, DataError>)
    ensures
        match r {
            Ok(Some((kind, amount))) => quirk_gain(
                *weapon,
                chars_view(prefixes@),
                name@,
                value.micros as int,
            ) == (QuirkGain::Amount { kind: kind@, amount: amount as int }) && -GAIN_LIMIT
                <= amount <= GAIN_LIMIT,
            Ok(None) => quirk_gain(*weapon, chars_view(prefixes@), name@, value.micros as int)
                == QuirkGain::Nothing,
            Err(e) => e == DataError::MalformedQuirkName && quirk_gain(
                *weapon,
                chars_view(prefixes@),
                name@,
                value.micros as int,
            ) == QuirkGain::Malformed,
        },
{
    match read_quirk_name(name, prefixes)? {
        None => Ok(None),
        Some((kind, math)) => {
            if str_eq(kind.as_str(), "cooldown") && weapon.cooldown.is_zero() {
                Ok(None)
            } else if str_eq(kind.as_str(), "velocity") && weapon.speed == 0 {
                Ok(None)
            } else {
                let amount = amount_of(math.as_str(), value);
                Ok(Some((kind, amount)))
            }
        },
    }
}

/// The most chosen weapons, and the most quirks of a variant, that the sums
/// are sure to hold.
pub const COUNT_LIMIT: usize = 0x1000_0000;

/// The most that the quirks of one variant can add for one weapon, either
/// way: `COUNT_LIMIT` times `GAIN_LIMIT`.
pub const WEAPON_LIMIT: i128 = 0x4_0000_0000_0000_0000_0000_0000;

/// The quirk totals of `mech` for the chosen weapons: for each weapon and
/// each kind of quirk that bears on it, the sum of the quirks' amounts.
pub fn get_relevant_quirks(
    equipment: &Equipment,
    mech: &Variant,
    chosen_weapons: &Vec<(String, i32, Decimal)>,
) -> (r: Result<QuirkTotals, DataError>)
    requires
        forall|i: int|
            0 <= i < chosen_weapons@.len() ==> first_index(
                equipment.weapons@,
                weapon_named((#[trigger] chosen_weapons@[i]).0@),
            ) is Some,
        chosen_weapons@.len() <= COUNT_LIMIT,
        mech.quirks@.len() <= COUNT_LIMIT,
    ensures
        match r {
            Ok(totals) => {
                &&& totals.well_formed()
                &&& relevant_quirks(equipment.weapons@, mech.quirks@, chosen_weapons@) matches Ok(m)
                    && m == totals@
            },
            Err(e) => relevant_quirks(equipment.weapons@, mech.quirks@, chosen_weapons@)
                matches Err(f) && f == e,
        },
{
    let mut totals = QuirkTotals::new();
    let mut w: usize = 0;
    while w < chosen_weapons.len()
        invariant
            w <= chosen_weapons@.len(),
            chosen_weapons@.len() <= COUNT_LIMIT,
            mech.quirks@.len() <= COUNT_LIMIT,
            forall|i: int|
                0 <= i < chosen_weapons@.len() ==> first_index(
                    equipment.weapons@,
                    weapon_named((#[trigger] chosen_weapons@[i]).0@),
                ) is Some,
            totals.well_formed(),
            within(totals.entries@, w * WEAPON_LIMIT),
            relevant_quirks(equipment.weapons@, mech.quirks@, chosen_weapons@.subrange(0, w as int))
                matches Ok(m) && m == totals@,
        decreases chosen_weapons@.len() - w,
    {
        let ghost before = totals@;
        assert(chosen_weapons@.subrange(0, w + 1).drop_last() == chosen_weapons@.subrange(
            0,
            w as int,
        ));
        let weap_name = chosen_weapons[w].0.as_str();
        let at = match find_weapon(&equipment.weapons, weap_name) {
            Some(at) => at,
            None => {
                return Err(DataError::EntryNotFound);
            },
        };
        let want_weap = &equipment.weapons[at];
        let prefixes = prefixes_of(&want_weap.hardpoint_aliases);
        let mut q: usize = 0;
        while q < mech.quirks.len()
            invariant
                q <= mech.quirks@.len(),
                w < chosen_weapons@.len(),
                chosen_weapons@.len() <= COUNT_LIMIT,
                mech.quirks@.len() <= COUNT_LIMIT,
                at < equipment.weapons@.len(),
                *want_weap == equipment.weapons@[at as int],
                weap_name@ == want_weap.name@,
                chars_view(prefixes@) == quirk_prefixes(want_weap.hardpoint_aliases@),
                totals.well_formed(),
                within(totals.entries@, w * WEAPON_LIMIT + q * GAIN_LIMIT),
                first_index(equipment.weapons@, weapon_named(chosen_weapons@[w as int].0@))
                    == Some(at as int),
                relevant_quirks(
                    equipment.weapons@,
                    mech.quirks@,
                    chosen_weapons@.subrange(0, w as int),
                ) matches Ok(m) && m == before,
                chosen_weapons@.subrange(0, w + 1).drop_last() == chosen_weapons@.subrange(
                    0,
                    w as int,
                ),
                weapon_quirks(before, *want_weap, mech.quirks@.subrange(0, q as int)) matches Ok(m)
                    && m == totals@,
            decreases mech.quirks@.len() - q,
        {
            assert(mech.quirks@.subrange(0, q + 1).drop_last() == mech.quirks@.subrange(
                0,
                q as int,
            ));
            let quirk_name = mech.quirks[q].0.as_str();
            let quirk_value = mech.quirks[q].1;
            match gain_of(want_weap, &prefixes, quirk_name, quirk_value) {
                Err(e) => {
                    proof {
                        lemma_weapon_quirks_fault(before, *want_weap, mech.quirks@, q + 1);
                        lemma_relevant_quirks_fault(
                            equipment.weapons@,
                            mech.quirks@,
                            chosen_weapons@,
                            w + 1,
                        );
                    }
                    return Err(e);
                },
                Ok(None) => {},
                Ok(Some((kind, amount))) => {
                    let ghost entries = totals.entries@;
                    let ghost limit = w * WEAPON_LIMIT + q * GAIN_LIMIT;
                    totals.add(weap_name, kind.as_str(), amount);
                    proof {
                        lemma_added(
                            entries,
                            totals.entries@,
                            weap_name@,
                            kind@,
                            amount as int,
                            limit,
                            GAIN_LIMIT as int,
                        );
                    }
                },
            }
            q = q + 1;
        }
        assert(mech.quirks@.subrange(0, q as int) == mech.quirks@);
        w = w + 1;
    }
    assert(chosen_weapons@.subrange(0, w as int) == chosen_weapons@);
    Ok(totals)
}

} // verus!

//! Smart playlists: rule validation, rule evaluation, ordering and limits.
use vstd::prelude::*;

use crate::model::{item_available, MediaItem, MediaItemView};
use crate::text::{
    chars_of, compare_chars, contains_chars, contains_seq, decimal_seq, decimal_text,
    lemma_seq_less_asymmetric, lemma_seq_less_irreflexive, lemma_seq_less_total,
    lemma_seq_less_transitive, lowercase, seq_less, to_lowercase, trim_seq, trim_str, Order,
};

verus! {

/// Whether a track must match every rule or at least one.
#[derive(Clone, Copy, Debug, PartialEq, Eq, Structural)]
pub enum SmartMatch {
    All,
    Any,
}

/// The track property that a rule tests.
#[derive(Clone, Copy, Debug, PartialEq, Eq, Structural)]
pub enum SmartRuleField {
    Title,
    Artist,
    Album,
    Label,
    Genre,
    DurationMs,
    PlayCount,
    Favorite,
    LastPlayedDays,
}

/// The comparison that a rule applies.
#[derive(Clone, Copy, Debug, PartialEq, Eq, Structural)]
pub enum SmartOperator {
    Contains,
    Equals,
    NotContains,
    LessThan,
    GreaterThan,
    Within,
    NotWithin,
}

/// The value of a rule. A JSON number is held as its value when that value is a
/// non-negative integer, and as `None` otherwise (negative or fractional).
#[derive(Debug, PartialEq, Eq)]
pub enum SmartRuleValue {
    Text(String),
    Number(Option<u64>),
    Boolean(bool),
}

#[derive(Debug, PartialEq, Eq)]
pub struct SmartPlaylistRule {
    pub field: SmartRuleField,
    pub operator: SmartOperator,
    pub value: SmartRuleValue,
}

/// The key that orders a smart playlist.
#[derive(Clone, Copy, Debug, PartialEq, Eq, Structural)]
pub enum SmartSortField {
    LibraryOrder,
    Title,
    Artist,
    Album,
    DurationMs,
    PlayCount,
    LastPlayedAtMs,
}

#[derive(Clone, Copy, Debug, PartialEq, Eq, Structural)]
pub enum SmartSortDirection {
    Asc,
    Desc,
}

#[derive(Clone, Copy, Debug, PartialEq, Eq, Structural)]
pub struct SmartPlaylistSort {
    pub field: SmartSortField,
    pub direction: SmartSortDirection,
}

/// A saved smart playlist: its rules, how they combine, its order and its optional limit.
#[derive(Debug, PartialEq, Eq)]
pub struct SmartPlaylistDefinition {
    pub match_mode: SmartMatch,
    pub rules: Vec<SmartPlaylistRule>,
    pub sort: SmartPlaylistSort,
    pub limit: Option<u32>,
}

/// The result of evaluating a definition: how many tracks match before the limit, and the
/// ordered, limited matches.
#[derive(Debug, PartialEq, Eq)]
pub struct SmartPlaylistPreview {
    pub total_matches: usize,
    pub matches: Vec<SmartPlaylistMatch>,
}

/// One matching track and the indexes of the rules that it satisfies.
#[derive(Debug, PartialEq, Eq)]
pub struct SmartPlaylistMatch {
    pub track_id: String,
    pub matched_rule_indexes: Vec<usize>,
}

/// The largest integer that JavaScript represents exactly.
pub const MAX_SAFE_INTEGER: u64 = 9_007_199_254_740_991;

/// One day in milliseconds.
pub const DAY_MS: u64 = 86_400_000;

/// A rule number that is a safe integer.
pub open spec fn safe_integer(value: Option<u64>) -> Option<u64> {
    match value {
        Some(v) => if v <= MAX_SAFE_INTEGER {
            Some(v)
        } else {
            None
        },
        None => None,
    }
}

fn integer(value: Option<u64>) -> (res: Option<u64>)
    ensures
        res == safe_integer(value),
{
    match value {
        Some(v) => if v <= MAX_SAFE_INTEGER {
            Some(v)
        } else {
            None
        },
        None => None,
    }
}

pub open spec fn is_text_field(field: SmartRuleField) -> bool {
    matches!(field, SmartRuleField::Title | SmartRuleField::Artist | SmartRuleField::Album | SmartRuleField::Label | SmartRuleField::Genre)
}

pub open spec fn is_text_operator(op: SmartOperator) -> bool {
    matches!(op, SmartOperator::Contains | SmartOperator::Equals | SmartOperator::NotContains)
}

pub open spec fn is_number_field(field: SmartRuleField) -> bool {
    matches!(field, SmartRuleField::DurationMs | SmartRuleField::PlayCount)
}

pub open spec fn is_number_operator(op: SmartOperator) -> bool {
    matches!(op, SmartOperator::Equals | SmartOperator::LessThan | SmartOperator::GreaterThan)
}

/// A rule pairs a field with an operator and a value of the field's kind: text of 1–200
/// characters after trimming, a safe non-negative integer, a boolean for Favorites, or a
/// day count of 1–36500 for the time since the last play.
pub open spec fn rule_valid(rule: SmartPlaylistRule) -> bool {
    match rule.value {
        SmartRuleValue::Text(value) => is_text_field(rule.field) && is_text_operator(rule.operator)
            && 1 <= trim_seq(value@).len() <= 200,
        SmartRuleValue::Number(value) => {
            ||| is_number_field(rule.field) && is_number_operator(rule.operator) && safe_integer(
                value,
            ) is Some
            ||| rule.field == SmartRuleField::LastPlayedDays && (rule.operator
                == SmartOperator::Within || rule.operator == SmartOperator::NotWithin)
                && (safe_integer(value) matches Some(days) && 1 <= days <= 36500)
        },
        SmartRuleValue::Boolean(_) => rule.field == SmartRuleField::Favorite && rule.operator
            == SmartOperator::Equals,
    }
}

pub open spec fn rule_count_valid(definition: SmartPlaylistDefinition) -> bool {
    1 <= definition.rules@.len() <= 20
}

pub open spec fn limit_valid(definition: SmartPlaylistDefinition) -> bool {
    definition.limit matches Some(limit) ==> 1 <= limit <= 10000
}

/// A definition has 1–20 valid rules and an optional limit of 1–10000.
pub open spec fn definition_valid(definition: SmartPlaylistDefinition) -> bool {
    &&& rule_count_valid(definition)
    &&& limit_valid(definition)
    &&& forall|i: int| 0 <= i < definition.rules@.len() ==> rule_valid(#[trigger] definition.rules@[i])
}

pub open spec fn rule_count_message() -> Seq<char> {
    "a smart playlist must have 1–20 rules"@
}

pub open spec fn limit_message() -> Seq<char> {
    "the smart playlist limit must be 1–10000"@
}

/// The message for the rule at `index`, counted from one in the text.
pub open spec fn rule_message(index: int) -> Seq<char> {
    "smart playlist rule "@ + decimal_seq((index + 1) as nat)
        + " has an invalid field, operator, or value"@
}

/// The message that validation reports: the rule count first, then the limit, then the
/// first invalid rule.
pub open spec fn validation_message(definition: SmartPlaylistDefinition, message: Seq<char>) -> bool {
    if !rule_count_valid(definition) {
        message == rule_count_message()
    } else if !limit_valid(definition) {
        message == limit_message()
    } else {
        exists|i: int|
            #![trigger definition.rules@[i]]
            0 <= i < definition.rules@.len() && !rule_valid(definition.rules@[i]) && (forall|j: int|
                0 <= j < i ==> rule_valid(#[trigger] definition.rules@[j])) && message
                == rule_message(i)
    }
}

/// The rule with a text value trimmed, as saved.
pub open spec fn normalized_rule(rule: SmartPlaylistRule, saved: SmartPlaylistRule) -> bool {
    &&& saved.field == rule.field
    &&& saved.operator == rule.operator
    &&& match (rule.value, saved.value) {
        (SmartRuleValue::Text(a), SmartRuleValue::Text(b)) => b@ == trim_seq(a@),
        (SmartRuleValue::Number(a), SmartRuleValue::Number(b)) => a == b,
        (SmartRuleValue::Boolean(a), SmartRuleValue::Boolean(b)) => a == b,
        _ => false,
    }
}

fn rule_is_valid(rule: &SmartPlaylistRule) -> (r: bool)
    ensures
        r == rule_valid(*rule),
{
    match &rule.value {
        SmartRuleValue::Text(value) => {
            let text_field = match rule.field {
                SmartRuleField::Title | SmartRuleField::Artist | SmartRuleField::Album
                | SmartRuleField::Label | SmartRuleField::Genre => true,
                _ => false,
            };
            let text_op = match rule.operator {
                SmartOperator::Contains | SmartOperator::Equals | SmartOperator::NotContains => true,
                _ => false,
            };
            if !(text_field && text_op) {
                return false;
            }
            let chars = chars_of(trim_str(value.as_str()).as_str());
            1 <= chars.len() && chars.len() <= 200
        },
        SmartRuleValue::Number(value) => {
            let number_field = match rule.field {
                SmartRuleField::DurationMs | SmartRuleField::PlayCount => true,
                _ => false,
            };
            let number_op = match rule.operator {
                SmartOperator::Equals | SmartOperator::LessThan | SmartOperator::GreaterThan => true,
                _ => false,
            };
            let days_op = match rule.operator {
                SmartOperator::Within | SmartOperator::NotWithin => true,
                _ => false,
            };
            if number_field && number_op {
                integer(*value).is_some()
            } else if rule.field == SmartRuleField::LastPlayedDays && days_op {
                match integer(*value) {
                    Some(days) => 1 <= days && days <= 36500,
                    None => false,
                }
            } else {
                false
            }
        },
        SmartRuleValue::Boolean(_) => rule.field == SmartRuleField::Favorite && rule.operator
            == SmartOperator::Equals,
    }
}

fn rule_error_message(index: usize) -> (res: String)
    requires
        index < 20,
    ensures
        res@ == rule_message(index as int),
{
    let prefix = "smart playlist rule ";
    let suffix = " has an invalid field, operator, or value";
    let number = decimal_text((index + 1) as u64);
    let res = String::from_str(prefix).concat(number.as_str()).concat(suffix);
    res
}

impl SmartPlaylistDefinition {
    /// Checks the rule count, the limit and every rule, and names the first problem.
    pub fn validate(&self) -> (res: Result<(), String>)
        ensures
            res is Ok <==> definition_valid(*self),
            res matches Err(message) ==> validation_message(*self, message@),
    {
        let count = self.rules.len();
        if !(1 <= count && count <= 20) {
            return Err(String::from_str("a smart playlist must have 1–20 rules"));
        }
        match self.limit {
            Some(limit) => {
                if !(1 <= limit && limit <= 10000) {
                    return Err(String::from_str("the smart playlist limit must be 1–10000"));
                }
            },
            None => {},
        }
        let mut i: usize = 0;
        while i < count
            invariant
                i <= count,
                count == self.rules@.len(),
                1 <= count <= 20,
                limit_valid(*self),
                forall|j: int| 0 <= j < i ==> rule_valid(#[trigger] self.rules@[j]),
            decreases count - i,
        {
            if !rule_is_valid(&self.rules[i]) {
                let message = rule_error_message(i);
                assert(!rule_valid(self.rules@[i as int]));
                assert(validation_message(*self, message@));
                return Err(message);
            }
            i = i + 1;
        }
        Ok(())
    }

    /// Validates the definition and trims every text value, as it is saved.
    pub fn normalized(self) -> (res: Result<SmartPlaylistDefinition, String>)
        ensures
            res is Ok <==> definition_valid(self),
            res matches Err(message) ==> validation_message(self, message@),
            res matches Ok(saved) ==> {
                &&& saved.match_mode == self.match_mode
                &&& saved.sort == self.sort
                &&& saved.limit == self.limit
                &&& saved.rules@.len() == self.rules@.len()
                &&& forall|i: int|
                    0 <= i < self.rules@.len() ==> normalized_rule(
                        #[trigger] self.rules@[i],
                        saved.rules@[i],
                    )
            },
    {
        match self.validate() {
            Err(message) => {
                return Err(message);
            },
            Ok(()) => {},
        }
        let ghost original = self;
        let SmartPlaylistDefinition { match_mode, rules, sort, limit } = self;
        let mut saved: Vec<SmartPlaylistRule> = Vec::new();
        let mut i: usize = 0;
        while i < rules.len()
            invariant
                i <= rules.len(),
                rules == original.rules,
                saved@.len() == i,
                forall|j: int| 0 <= j < i ==> normalized_rule(#[trigger] rules@[j], saved@[j]),
            decreases rules.len() - i,
        {
            let rule = &rules[i];
            let value = match &rule.value {
                SmartRuleValue::Text(text) => SmartRuleValue::Text(trim_str(text.as_str())),
                SmartRuleValue::Number(n) => SmartRuleValue::Number(*n),
                SmartRuleValue::Boolean(b) => SmartRuleValue::Boolean(*b),
            };
            saved.push(SmartPlaylistRule { field: rule.field, operator: rule.operator, value });
            i = i + 1;
        }
        Ok(SmartPlaylistDefinition { match_mode, rules: saved, sort, limit })
    }
}

/// The text test on lowercased text: equality for `Equals`, substring otherwise.
pub open spec fn lowered_hit(op: SmartOperator, lowered: Seq<char>, needle: Seq<char>) -> bool {
    if op == SmartOperator::Equals {
        lowered == needle
    } else {
        contains_seq(lowered, needle)
    }
}

/// Case-insensitive text test (see `lowered_hit`).
pub open spec fn text_hit(op: SmartOperator, text: Seq<char>, needle: Seq<char>) -> bool {
    lowered_hit(op, lowercase(text), needle)
}

pub open spec fn saturating_sub(a: u64, b: u64) -> u64 {
    if a >= b {
        (a - b) as u64
    } else {
        0
    }
}

pub open spec fn saturating_mul(a: u64, b: u64) -> u64 {
    if a * b <= u64::MAX {
        (a * b) as u64
    } else {
        u64::MAX
    }
}

/// Whether one rule holds of a track. Text compares case-insensitively against the trimmed,
/// lowercased value; a genre rule tests each genre; `NotContains` negates the text test.
/// A relative-time rule tests whether the last play is at or after `now - days`; a track
/// never played is not within. A boolean rule tests Favorites membership.
pub open spec fn rule_matches(
    rule: SmartPlaylistRule,
    item: MediaItemView,
    favorite: bool,
    now_ms: u64,
) -> bool {
    match rule.value {
        SmartRuleValue::Text(value) => {
            let needle = lowercase(trim_seq(value@));
            let op = rule.operator;
            let matched = match rule.field {
                SmartRuleField::Title => text_hit(op, item.title, needle),
                SmartRuleField::Artist => text_hit(op, item.artist, needle),
                SmartRuleField::Album => item.album matches Some(a) && text_hit(op, a, needle),
                SmartRuleField::Label => item.label matches Some(l) && text_hit(op, l, needle),
                SmartRuleField::Genre => exists|g: int|
                    0 <= g < item.genres.len() && text_hit(op, #[trigger] item.genres[g], needle),
                _ => false,
            };
            if op == SmartOperator::NotContains {
                !matched
            } else {
                matched
            }
        },
        SmartRuleValue::Number(value) => match safe_integer(value) {
            None => false,
            Some(value) => if rule.field == SmartRuleField::LastPlayedDays {
                let cutoff = saturating_sub(now_ms, saturating_mul(value, DAY_MS));
                let within = item.last_played_at_ms matches Some(played) && played >= cutoff;
                if rule.operator == SmartOperator::Within {
                    within
                } else {
                    !within
                }
            } else if rule.field == SmartRuleField::DurationMs || rule.field
                == SmartRuleField::PlayCount {
                let actual = if rule.field == SmartRuleField::DurationMs {
                    item.duration_ms
                } else {
                    item.play_count
                };
                match rule.operator {
                    SmartOperator::Equals => actual == value,
                    SmartOperator::LessThan => actual < value,
                    SmartOperator::GreaterThan => actual > value,
                    _ => false,
                }
            } else {
                false
            },
        },
        SmartRuleValue::Boolean(value) => favorite == value,
    }
}

/// The text test of a rule on a value that is already lowercased (see `lowered_hit`).
pub fn lowered_text_matches(op: SmartOperator, lowered: &[char], needle: &[char]) -> (r: bool)
    ensures
        r == lowered_hit(op, lowered@, needle@),
{
    if op == SmartOperator::Equals {
        compare_chars(lowered, needle) == Order::Equal
    } else {
        contains_chars(lowered, needle)
    }
}

fn text_matches(op: SmartOperator, text: &str, needle: &Vec<char>) -> (r: bool)
    ensures
        r == text_hit(op, text@, needle@),
{
    let lowered = chars_of(to_lowercase(text).as_str());
    lowered_text_matches(op, lowered.as_slice(), needle.as_slice())
}

fn any_genre_matches(op: SmartOperator, genres: &Vec<String>, needle: &Vec<char>) -> (r: bool)
    ensures
        r == exists|g: int|
            0 <= g < genres.deep_view().len() && text_hit(op, #[trigger] genres.deep_view()[g], needle@),
{
    let mut i: usize = 0;
    while i < genres.len()
        invariant
            i <= genres.len(),
            forall|g: int| 0 <= g < i ==> !text_hit(op, #[trigger] genres.deep_view()[g], needle@),
        decreases genres.len() - i,
    {
        if text_matches(op, genres[i].as_str(), needle) {
            assert(genres.deep_view()[i as int] == genres@[i as int]@);
            return true;
        }
        assert(genres.deep_view()[i as int] == genres@[i as int]@);
        i = i + 1;
    }
    false
}

/// Whether one rule holds of a track.
pub fn matches_rule(rule: &SmartPlaylistRule, track: &MediaItem, favorite: bool, now_ms: u64) -> (r:
    bool)
    ensures
        r == rule_matches(*rule, track@, favorite, now_ms),
{
    match &rule.value {
        SmartRuleValue::Text(value) => {
            let needle = chars_of(to_lowercase(trim_str(value.as_str()).as_str()).as_str());
            let op = rule.operator;
            let matched = match rule.field {
                SmartRuleField::Title => text_matches(op, track.title.as_str(), &needle),
                SmartRuleField::Artist => text_matches(op, track.artist.as_str(), &needle),
                SmartRuleField::Album => match &track.album {
                    Some(album) => text_matches(op, album.as_str(), &needle),
                    None => false,
                },
                SmartRuleField::Label => match &track.label {
                    Some(label) => text_matches(op, label.as_str(), &needle),
                    None => false,
                },
                SmartRuleField::Genre => any_genre_matches(op, &track.genres, &needle),
                _ => false,
            };
            assert(matched == match rule.field {
                SmartRuleField::Title => text_hit(op, track@.title, needle@),
                SmartRuleField::Artist => text_hit(op, track@.artist, needle@),
                SmartRuleField::Album => track@.album matches Some(a) && text_hit(op, a, needle@),
                SmartRuleField::Label => track@.label matches Some(l) && text_hit(op, l, needle@),
                SmartRuleField::Genre => exists|g: int|
                    0 <= g < track@.genres.len() && text_hit(op, #[trigger] track@.genres[g], needle@),
                _ => false,
            });
            if op == SmartOperator::NotContains {
                !matched
            } else {
                matched
            }
        },
        SmartRuleValue::Number(value) => {
            let value = match integer(*value) {
                Some(v) => v,
                None => {
                    return false;
                },
            };
            if rule.field == SmartRuleField::LastPlayedDays {
                let span = match value.checked_mul(DAY_MS) {
                    Some(span) => span,
                    None => u64::MAX,
                };
                assert(span == saturating_mul(value, DAY_MS));
                let cutoff = now_ms.saturating_sub(span);
                assert(cutoff == saturating_sub(now_ms, span));
                let within = match track.last_played_at_ms {
                    Some(played) => played >= cutoff,
                    None => false,
                };
                return if rule.operator == SmartOperator::Within {
                    within
                } else {
                    !within
                };
            }
            let actual = if rule.field == SmartRuleField::DurationMs {
                track.duration_ms
            } else if rule.field == SmartRuleField::PlayCount {
                track.play_count
            } else {
                return false;
            };
            match rule.operator {
                SmartOperator::Equals => actual == value,
                SmartOperator::LessThan => actual < value,
                SmartOperator::GreaterThan => actual > value,
                _ => false,
            }
        },
        SmartRuleValue::Boolean(value) => favorite == *value,
    }
}


/// Indexes of the rules among the first `count` that hold of a track, in increasing order.
pub open spec fn matched_rules(
    rules: Seq<SmartPlaylistRule>,
    count: int,
    item: MediaItemView,
    favorite: bool,
    now_ms: u64,
) -> Seq<usize>
    decreases count,
{
    if count <= 0 {
        seq![]
    } else {
        let prefix = matched_rules(rules, count - 1, item, favorite, now_ms);
        if rule_matches(rules[count - 1], item, favorite, now_ms) {
            prefix.push((count - 1) as usize)
        } else {
            prefix
        }
    }
}

/// Favorites membership by stable track ID.
pub open spec fn is_favorite(favorites: Seq<Seq<char>>, id: Seq<char>) -> bool {
    favorites.contains(id)
}

/// The indexes of the definition's rules that hold of a track.
pub open spec fn track_rules(
    definition: SmartPlaylistDefinition,
    item: MediaItemView,
    favorites: Seq<Seq<char>>,
    now_ms: u64,
) -> Seq<usize> {
    matched_rules(
        definition.rules@,
        definition.rules@.len() as int,
        item,
        is_favorite(favorites, item.id),
        now_ms,
    )
}

/// An available track belongs to the playlist when it satisfies every rule (`All`) or at
/// least one rule (`Any`).
pub open spec fn track_selected(
    definition: SmartPlaylistDefinition,
    item: MediaItemView,
    favorites: Seq<Seq<char>>,
    now_ms: u64,
) -> bool {
    &&& item_available(item)
    &&& match definition.match_mode {
        SmartMatch::All => track_rules(definition, item, favorites, now_ms).len()
            == definition.rules@.len(),
        SmartMatch::Any => track_rules(definition, item, favorites, now_ms).len() > 0,
    }
}

pub open spec fn order_of_seqs(a: Seq<char>, b: Seq<char>) -> Order {
    if seq_less(a, b) {
        Order::Less
    } else if a == b {
        Order::Equal
    } else {
        Order::Greater
    }
}

pub open spec fn order_of_ints(a: int, b: int) -> Order {
    if a < b {
        Order::Less
    } else if a == b {
        Order::Equal
    } else {
        Order::Greater
    }
}

/// A track never played orders before any play time.
pub open spec fn order_of_options(a: Option<u64>, b: Option<u64>) -> Order {
    match (a, b) {
        (None, None) => Order::Equal,
        (None, Some(_)) => Order::Less,
        (Some(_), None) => Order::Greater,
        (Some(x), Some(y)) => order_of_ints(x as int, y as int),
    }
}

pub open spec fn reverse_order(o: Order) -> Order {
    match o {
        Order::Less => Order::Greater,
        Order::Equal => Order::Equal,
        Order::Greater => Order::Less,
    }
}

/// The lowercased album, with a missing album as empty text.
pub open spec fn album_key(item: MediaItemView) -> Seq<char> {
    lowercase(
        match item.album {
            Some(a) => a,
            None => Seq::<char>::empty(),
        },
    )
}

/// Comparison of two tracks at library positions `p` and `q` by the sort field.
pub open spec fn key_order(
    field: SmartSortField,
    a: MediaItemView,
    b: MediaItemView,
    p: int,
    q: int,
) -> Order {
    match field {
        SmartSortField::LibraryOrder => order_of_ints(p, q),
        SmartSortField::Title => order_of_seqs(lowercase(a.title), lowercase(b.title)),
        SmartSortField::Artist => order_of_seqs(lowercase(a.artist), lowercase(b.artist)),
        SmartSortField::Album => order_of_seqs(album_key(a), album_key(b)),
        SmartSortField::DurationMs => order_of_ints(a.duration_ms as int, b.duration_ms as int),
        SmartSortField::PlayCount => order_of_ints(a.play_count as int, b.play_count as int),
        SmartSortField::LastPlayedAtMs => order_of_options(a.last_played_at_ms, b.last_played_at_ms),
    }
}

/// The track at `p` comes before the track at `q`: by the sort key in the sort direction,
/// then by library order.
pub open spec fn precedes(sort: SmartPlaylistSort, tracks: Seq<MediaItemView>, p: int, q: int) -> bool {
    let base = key_order(sort.field, tracks[p], tracks[q], p, q);
    let o = if sort.direction == SmartSortDirection::Desc {
        reverse_order(base)
    } else {
        base
    };
    o == Order::Less || (o == Order::Equal && p < q)
}

proof fn lemma_order_of_seqs(a: Seq<char>, b: Seq<char>, c: Seq<char>)
    ensures
        order_of_seqs(b, a) == reverse_order(order_of_seqs(a, b)),
        order_of_seqs(a, a) == Order::Equal,
        order_of_seqs(a, b) != Order::Greater && order_of_seqs(b, c) != Order::Greater ==> order_of_seqs(a, c)
            != Order::Greater,
        order_of_seqs(a, b) == Order::Less && order_of_seqs(b, c) != Order::Greater ==> order_of_seqs(a, c)
            == Order::Less,
        order_of_seqs(a, b) != Order::Greater && order_of_seqs(b, c) == Order::Less ==> order_of_seqs(a, c)
            == Order::Less,
{
    lemma_seq_less_irreflexive(a);
    lemma_seq_less_total(a, b);
    lemma_seq_less_asymmetric(a, b);
    lemma_seq_less_total(b, c);
    lemma_seq_less_total(a, c);
    lemma_seq_less_asymmetric(a, c);
    if seq_less(a, b) && seq_less(b, c) {
        lemma_seq_less_transitive(a, b, c);
    }
}

proof fn lemma_key_order(
    field: SmartSortField,
    a: MediaItemView,
    b: MediaItemView,
    c: MediaItemView,
    p: int,
    q: int,
    r: int,
)
    ensures
        key_order(field, b, a, q, p) == reverse_order(key_order(field, a, b, p, q)),
        key_order(field, a, a, p, p) == Order::Equal,
        key_order(field, a, b, p, q) != Order::Greater && key_order(field, b, c, q, r) != Order::Greater
            ==> key_order(field, a, c, p, r) != Order::Greater,
        key_order(field, a, b, p, q) == Order::Less && key_order(field, b, c, q, r) != Order::Greater
            ==> key_order(field, a, c, p, r) == Order::Less,
        key_order(field, a, b, p, q) != Order::Greater && key_order(field, b, c, q, r) == Order::Less
            ==> key_order(field, a, c, p, r) == Order::Less,
{
    match field {
        SmartSortField::Title => lemma_order_of_seqs(lowercase(a.title), lowercase(b.title), lowercase(c.title)),
        SmartSortField::Artist => lemma_order_of_seqs(
            lowercase(a.artist),
            lowercase(b.artist),
            lowercase(c.artist),
        ),
        SmartSortField::Album => lemma_order_of_seqs(album_key(a), album_key(b), album_key(c)),
        _ => {},
    }
}

/// `precedes` is a strict total order on library positions: irreflexive, total on distinct
/// positions, asymmetric and transitive.
pub proof fn lemma_precedes_strict_total_order(
    sort: SmartPlaylistSort,
    tracks: Seq<MediaItemView>,
    p: int,
    q: int,
    r: int,
)
    ensures
        !precedes(sort, tracks, p, p),
        p != q ==> precedes(sort, tracks, p, q) || precedes(sort, tracks, q, p),
        !(precedes(sort, tracks, p, q) && precedes(sort, tracks, q, p)),
        precedes(sort, tracks, p, q) && precedes(sort, tracks, q, r) ==> precedes(sort, tracks, p, r),
{
    lemma_key_order(sort.field, tracks[p], tracks[q], tracks[r], p, q, r);
    lemma_key_order(sort.field, tracks[r], tracks[q], tracks[p], r, q, p);
    lemma_key_order(sort.field, tracks[p], tracks[p], tracks[p], p, p, p);
    lemma_key_order(sort.field, tracks[q], tracks[p], tracks[p], q, p, p);
    lemma_key_order(sort.field, tracks[p], tracks[r], tracks[p], p, r, p);
}


/// The number of matches that a limit keeps.
pub open spec fn limited(total: int, limit: Option<u32>) -> int {
    match limit {
        Some(l) => if l < total {
            l as int
        } else {
            total
        },
        None => total,
    }
}

/// `order` lists, as library positions, every selected track exactly once, sorted by
/// `precedes`.
pub open spec fn resolution_order(
    definition: SmartPlaylistDefinition,
    tracks: Seq<MediaItemView>,
    favorites: Seq<Seq<char>>,
    now_ms: u64,
    order: Seq<int>,
) -> bool {
    &&& forall|i: int|
        0 <= i < order.len() ==> 0 <= #[trigger] order[i] < tracks.len() && track_selected(
            definition,
            tracks[order[i]],
            favorites,
            now_ms,
        )
    &&& forall|p: int|
        0 <= p < tracks.len() && track_selected(definition, #[trigger] tracks[p], favorites, now_ms)
            ==> order.contains(p)
    &&& forall|i: int, j: int|
        0 <= i < j < order.len() ==> precedes(definition.sort, tracks, #[trigger] order[i], #[trigger] order[j])
}

/// The preview reports the count of `order` and its first `limit` tracks with their
/// matched rule indexes.
pub open spec fn preview_of(
    definition: SmartPlaylistDefinition,
    tracks: Seq<MediaItemView>,
    favorites: Seq<Seq<char>>,
    now_ms: u64,
    order: Seq<int>,
    preview: SmartPlaylistPreview,
) -> bool {
    &&& preview.total_matches == order.len()
    &&& preview.matches@.len() == limited(order.len() as int, definition.limit)
    &&& forall|i: int|
        0 <= i < preview.matches@.len() ==> {
            &&& (#[trigger] preview.matches@[i]).track_id@ == tracks[order[i]].id
            &&& preview.matches@[i].matched_rule_indexes@ == track_rules(
                definition,
                tracks[order[i]],
                favorites,
                now_ms,
            )
        }
}

proof fn lemma_sorted_by_text_key(
    definition: SmartPlaylistDefinition,
    tracks: Seq<MediaItemView>,
    favorites: Seq<Seq<char>>,
    now_ms: u64,
    order: Seq<int>,
    i: int,
    j: int,
    a: Seq<char>,
    b: Seq<char>,
)
    requires
        resolution_order(definition, tracks, favorites, now_ms, order),
        0 <= i < order.len(),
        0 <= j < order.len(),
        key_order(definition.sort.field, tracks[order[j]], tracks[order[i]], order[j], order[i])
            == order_of_seqs(b, a),
        i == j ==> a == b,
    ensures
        (if definition.sort.direction == SmartSortDirection::Asc {
            seq_less(a, b)
        } else {
            seq_less(b, a)
        }) ==> i < j,
        a == b && order[i] < order[j] ==> i < j,
{
    lemma_seq_less_irreflexive(a);
    lemma_seq_less_irreflexive(b);
    lemma_seq_less_asymmetric(a, b);
    if j < i {
        assert(precedes(definition.sort, tracks, order[j], order[i]));
    }
}

proof fn lemma_sorted_by_number_key(
    definition: SmartPlaylistDefinition,
    tracks: Seq<MediaItemView>,
    favorites: Seq<Seq<char>>,
    now_ms: u64,
    order: Seq<int>,
    i: int,
    j: int,
    a: int,
    b: int,
)
    requires
        resolution_order(definition, tracks, favorites, now_ms, order),
        0 <= i < order.len(),
        0 <= j < order.len(),
        key_order(definition.sort.field, tracks[order[j]], tracks[order[i]], order[j], order[i])
            == order_of_ints(b, a),
        i == j ==> a == b,
    ensures
        (if definition.sort.direction == SmartSortDirection::Asc {
            a < b
        } else {
            b < a
        }) ==> i < j,
        a == b && order[i] < order[j] ==> i < j,
{
    if j < i {
        assert(precedes(definition.sort, tracks, order[j], order[i]));
    }
}

/// A resolved smart playlist is sorted by its sort field: for the text fields the key is
/// the lowercased title, artist or album (a missing album as empty text), compared
/// lexicographically; for duration and play count the number. In ascending order a track
/// with a smaller key comes earlier, in descending order one with a larger key; tracks
/// with equal keys keep library order.
pub proof fn lemma_resolution_sorted_by_field(
    definition: SmartPlaylistDefinition,
    tracks: Seq<MediaItemView>,
    favorites: Seq<Seq<char>>,
    now_ms: u64,
    order: Seq<int>,
    i: int,
    j: int,
)
    requires
        resolution_order(definition, tracks, favorites, now_ms, order),
        0 <= i < order.len(),
        0 <= j < order.len(),
    ensures
        ({
            let x = tracks[order[i]];
            let y = tracks[order[j]];
            let asc = definition.sort.direction == SmartSortDirection::Asc;
            let xa = match x.album { Some(t) => t, None => Seq::<char>::empty() };
            let ya = match y.album { Some(t) => t, None => Seq::<char>::empty() };
            &&& definition.sort.field == SmartSortField::Title ==> ((if asc {
                seq_less(lowercase(x.title), lowercase(y.title))
            } else {
                seq_less(lowercase(y.title), lowercase(x.title))
            }) ==> i < j) && (lowercase(x.title) == lowercase(y.title) && order[i] < order[j] ==> i < j)
            &&& definition.sort.field == SmartSortField::Artist ==> ((if asc {
                seq_less(lowercase(x.artist), lowercase(y.artist))
            } else {
                seq_less(lowercase(y.artist), lowercase(x.artist))
            }) ==> i < j) && (lowercase(x.artist) == lowercase(y.artist) && order[i] < order[j] ==> i < j)
            &&& definition.sort.field == SmartSortField::Album ==> ((if asc {
                seq_less(lowercase(xa), lowercase(ya))
            } else {
                seq_less(lowercase(ya), lowercase(xa))
            }) ==> i < j) && (lowercase(xa) == lowercase(ya) && order[i] < order[j] ==> i < j)
            &&& definition.sort.field == SmartSortField::DurationMs ==> ((if asc {
                x.duration_ms < y.duration_ms
            } else {
                y.duration_ms < x.duration_ms
            }) ==> i < j) && (x.duration_ms == y.duration_ms && order[i] < order[j] ==> i < j)
            &&& definition.sort.field == SmartSortField::PlayCount ==> ((if asc {
                x.play_count < y.play_count
            } else {
                y.play_count < x.play_count
            }) ==> i < j) && (x.play_count == y.play_count && order[i] < order[j] ==> i < j)
        }),
{
    let x = tracks[order[i]];
    let y = tracks[order[j]];
    match definition.sort.field {
        SmartSortField::Title => lemma_sorted_by_text_key(
            definition, tracks, favorites, now_ms, order, i, j, lowercase(x.title), lowercase(y.title),
        ),
        SmartSortField::Artist => lemma_sorted_by_text_key(
            definition, tracks, favorites, now_ms, order, i, j, lowercase(x.artist), lowercase(y.artist),
        ),
        SmartSortField::Album => lemma_sorted_by_text_key(
            definition, tracks, favorites, now_ms, order, i, j, album_key(x), album_key(y),
        ),
        SmartSortField::DurationMs => lemma_sorted_by_number_key(
            definition, tracks, favorites, now_ms, order, i, j, x.duration_ms as int, y.duration_ms as int,
        ),
        SmartSortField::PlayCount => lemma_sorted_by_number_key(
            definition, tracks, favorites, now_ms, order, i, j, x.play_count as int, y.play_count as int,
        ),
        _ => {},
    }
}

/// The views of a list of tracks.
pub open spec fn views(tracks: Seq<MediaItem>) -> Seq<MediaItemView> {
    tracks.map_values(|t: MediaItem| t@)
}

struct Candidate {
    position: usize,
    matched: Vec<usize>,
    text_key: Vec<char>,
    number_key: u64,
    option_key: Option<u64>,
}

spec fn text_key_of(field: SmartSortField, item: MediaItemView) -> Seq<char> {
    match field {
        SmartSortField::Title => lowercase(item.title),
        SmartSortField::Artist => lowercase(item.artist),
        SmartSortField::Album => album_key(item),
        _ => Seq::<char>::empty(),
    }
}

spec fn number_key_of(field: SmartSortField, item: MediaItemView) -> u64 {
    match field {
        SmartSortField::DurationMs => item.duration_ms,
        SmartSortField::PlayCount => item.play_count,
        _ => 0,
    }
}

spec fn option_key_of(field: SmartSortField, item: MediaItemView) -> Option<u64> {
    match field {
        SmartSortField::LastPlayedAtMs => item.last_played_at_ms,
        _ => None,
    }
}

spec fn candidate_ok(
    definition: SmartPlaylistDefinition,
    tracks: Seq<MediaItemView>,
    favorites: Seq<Seq<char>>,
    now_ms: u64,
    c: Candidate,
) -> bool {
    &&& c.position < tracks.len()
    &&& track_selected(definition, tracks[c.position as int], favorites, now_ms)
    &&& c.matched@ == track_rules(definition, tracks[c.position as int], favorites, now_ms)
    &&& c.text_key@ == text_key_of(definition.sort.field, tracks[c.position as int])
    &&& c.number_key == number_key_of(definition.sort.field, tracks[c.position as int])
    &&& c.option_key == option_key_of(definition.sort.field, tracks[c.position as int])
}

fn order_of_u64s(a: u64, b: u64) -> (r: Order)
    ensures
        r == order_of_ints(a as int, b as int),
{
    if a < b {
        Order::Less
    } else if a == b {
        Order::Equal
    } else {
        Order::Greater
    }
}

fn candidate_precedes(
    definition: &SmartPlaylistDefinition,
    a: &Candidate,
    b: &Candidate,
    Ghost(tracks): Ghost<Seq<MediaItemView>>,
    Ghost(favorites): Ghost<Seq<Seq<char>>>,
    now_ms: u64,
) -> (r: bool)
    requires
        candidate_ok(*definition, tracks, favorites, now_ms, *a),
        candidate_ok(*definition, tracks, favorites, now_ms, *b),
    ensures
        r == precedes(definition.sort, tracks, a.position as int, b.position as int),
{
    let field = definition.sort.field;
    let base = match field {
        SmartSortField::LibraryOrder => order_of_u64s(a.position as u64, b.position as u64),
        SmartSortField::Title | SmartSortField::Artist | SmartSortField::Album => compare_chars(
            a.text_key.as_slice(),
            b.text_key.as_slice(),
        ),
        SmartSortField::DurationMs | SmartSortField::PlayCount => order_of_u64s(
            a.number_key,
            b.number_key,
        ),
        SmartSortField::LastPlayedAtMs => match (a.option_key, b.option_key) {
            (None, None) => Order::Equal,
            (None, Some(_)) => Order::Less,
            (Some(_), None) => Order::Greater,
            (Some(x), Some(y)) => order_of_u64s(x, y),
        },
    };
    proof {
        if field == SmartSortField::Title || field == SmartSortField::Artist || field
            == SmartSortField::Album {
            lemma_seq_less_irreflexive(a.text_key@);
            lemma_seq_less_asymmetric(a.text_key@, b.text_key@);
        }
    }
    assert(base == key_order(
        field,
        tracks[a.position as int],
        tracks[b.position as int],
        a.position as int,
        b.position as int,
    ));
    let ordered = if definition.sort.direction == SmartSortDirection::Desc {
        match base {
            Order::Less => Order::Greater,
            Order::Equal => Order::Equal,
            Order::Greater => Order::Less,
        }
    } else {
        base
    };
    ordered == Order::Less || (ordered == Order::Equal && a.position < b.position)
}

fn favorite_contains(favorites: &Vec<String>, id: &String) -> (r: bool)
    ensures
        r == is_favorite(favorites.deep_view(), id@),
{
    let mut i: usize = 0;
    while i < favorites.len()
        invariant
            i <= favorites.len(),
            forall|j: int| 0 <= j < i ==> favorites.deep_view()[j] != id@,
        decreases favorites.len() - i,
    {
        if favorites[i] == *id {
            assert(favorites.deep_view()[i as int] == id@);
            return true;
        }
        assert(favorites.deep_view()[i as int] == favorites@[i as int]@);
        i = i + 1;
    }
    false
}

fn rules_matched_by(
    definition: &SmartPlaylistDefinition,
    track: &MediaItem,
    favorite: bool,
    now_ms: u64,
) -> (res: Vec<usize>)
    ensures
        res@ == matched_rules(definition.rules@, definition.rules@.len() as int, track@, favorite, now_ms),
{
    let mut res: Vec<usize> = Vec::new();
    let mut k: usize = 0;
    while k < definition.rules.len()
        invariant
            k <= definition.rules@.len(),
            res@ == matched_rules(definition.rules@, k as int, track@, favorite, now_ms),
        decreases definition.rules@.len() - k,
    {
        if matches_rule(&definition.rules[k], track, favorite, now_ms) {
            res.push(k);
        }
        k = k + 1;
    }
    res
}

fn copy_indexes(values: &Vec<usize>) -> (res: Vec<usize>)
    ensures
        res@ == values@,
{
    let mut res: Vec<usize> = Vec::new();
    let mut i: usize = 0;
    while i < values.len()
        invariant
            i <= values.len(),
            res@ =~= values@.take(i as int),
        decreases values.len() - i,
    {
        res.push(values[i]);
        i = i + 1;
    }
    assert(values@.take(values.len() as int) =~= values@);
    res
}

fn sort_text_key(field: SmartSortField, track: &MediaItem) -> (res: Vec<char>)
    ensures
        res@ == text_key_of(field, track@),
{
    match field {
        SmartSortField::Title => chars_of(to_lowercase(track.title.as_str()).as_str()),
        SmartSortField::Artist => chars_of(to_lowercase(track.artist.as_str()).as_str()),
        SmartSortField::Album => {
            let album = match &track.album {
                Some(a) => a.as_str(),
                None => "",
            };
            proof {
                reveal_strlit("");
            }
            assert(album@ == (match track@.album {
                Some(a) => a,
                None => Seq::<char>::empty(),
            }));
            chars_of(to_lowercase(album).as_str())
        },
        _ => Vec::new(),
    }
}

/// Evaluates a definition over the library: the available tracks that match, sorted by the
/// sort key and direction with library order breaking ties, then cut to the limit. The
/// total counts matches before the limit. Callers validate the definition first; one clock
/// value serves every relative-time rule.
pub fn resolve(
    definition: &SmartPlaylistDefinition,
    tracks: &Vec<MediaItem>,
    favorites: &Vec<String>,
    now_ms: u64,
) -> (res: SmartPlaylistPreview)
    ensures
        exists|order: Seq<int>|
            resolution_order(*definition, views(tracks@), favorites.deep_view(), now_ms, order)
                && preview_of(*definition, views(tracks@), favorites.deep_view(), now_ms, order, res),
{
    let ghost tv = views(tracks@);
    let ghost favs = favorites.deep_view();
    let field = definition.sort.field;
    let mut cands: Vec<Candidate> = Vec::new();
    let mut t: usize = 0;
    while t < tracks.len()
        invariant
            t <= tracks.len(),
            tv == views(tracks@),
            tv.len() == tracks@.len(),
            favs == favorites.deep_view(),
            field == definition.sort.field,
            forall|i: int| 0 <= i < cands@.len() ==> candidate_ok(*definition, tv, favs, now_ms, #[trigger] cands@[i]),
            forall|i: int| 0 <= i < cands@.len() ==> (#[trigger] cands@[i]).position < t,
            forall|i: int, j: int| 0 <= i < j < cands@.len() ==> (#[trigger] cands@[i]).position < (#[trigger] cands@[j]).position,
            forall|p: int| 0 <= p < t && track_selected(*definition, #[trigger] tv[p], favs, now_ms)
                ==> exists|i: int| 0 <= i < cands@.len() && cands@[i].position == p,
        decreases tracks.len() - t,
    {
        let track = &tracks[t];
        assert(tv[t as int] == track@);
        let available = track.is_available();
        let favorite = favorite_contains(favorites, &track.id);
        let matched = rules_matched_by(definition, track, favorite, now_ms);
        let selected = available && match definition.match_mode {
            SmartMatch::All => matched.len() == definition.rules.len(),
            SmartMatch::Any => matched.len() > 0,
        };
        assert(selected == track_selected(*definition, tv[t as int], favs, now_ms));
        if selected {
            let text_key = sort_text_key(field, track);
            let number_key = match field {
                SmartSortField::DurationMs => track.duration_ms,
                SmartSortField::PlayCount => track.play_count,
                _ => 0,
            };
            let option_key = match field {
                SmartSortField::LastPlayedAtMs => track.last_played_at_ms,
                _ => None,
            };
            let c = Candidate { position: t, matched, text_key, number_key, option_key };
            let ghost old_cands = cands@;
            cands.push(c);
            assert(cands@[cands@.len() - 1].position == t);
            assert forall|q: int|
                0 <= q < t + 1 && track_selected(*definition, #[trigger] tv[q], favs, now_ms)
                    implies exists|i: int| 0 <= i < cands@.len() && cands@[i].position == q by {
                if q == t {
                    assert(cands@[cands@.len() - 1].position == q);
                } else {
                    let i = choose|i: int| 0 <= i < old_cands.len() && old_cands[i].position == q;
                    assert(cands@[i] == old_cands[i]);
                }
            }
        }
        t = t + 1;
    }

    // Insertion sort of candidate indexes by `precedes`.
    let n = cands.len();
    let mut order_idx: Vec<usize> = Vec::new();
    let mut k: usize = 0;
    while k < n
        invariant
            k <= n,
            n == cands@.len(),
            tv.len() == tracks@.len(),
            forall|i: int| 0 <= i < cands@.len() ==> candidate_ok(*definition, tv, favs, now_ms, #[trigger] cands@[i]),
            forall|i: int, j: int| 0 <= i < j < cands@.len() ==> (#[trigger] cands@[i]).position < (#[trigger] cands@[j]).position,
            order_idx@.len() == k,
            forall|i: int| 0 <= i < order_idx@.len() ==> (#[trigger] order_idx@[i]) < k,
            forall|c: usize| c < k ==> #[trigger] order_idx@.contains(c),
            forall|i: int, j: int|
                0 <= i < j < order_idx@.len() ==> precedes(
                    definition.sort,
                    tv,
                    cands@[#[trigger] order_idx@[i] as int].position as int,
                    cands@[#[trigger] order_idx@[j] as int].position as int,
                ),
        decreases n - k,
    {
        let mut p: usize = 0;
        while p < order_idx.len() && !candidate_precedes(
            definition,
            &cands[k],
            &cands[order_idx[p]],
            Ghost(tv),
            Ghost(favs),
            now_ms,
        )
            invariant
                p <= order_idx@.len(),
                k < n,
                n == cands@.len(),
                forall|i: int| 0 <= i < cands@.len() ==> candidate_ok(*definition, tv, favs, now_ms, #[trigger] cands@[i]),
                forall|i: int| 0 <= i < order_idx@.len() ==> (#[trigger] order_idx@[i]) < k,
                forall|i: int|
                    0 <= i < p ==> !precedes(
                        definition.sort,
                        tv,
                        cands@[k as int].position as int,
                        cands@[#[trigger] order_idx@[i] as int].position as int,
                    ),
            decreases order_idx@.len() - p,
        {
            p = p + 1;
        }
        let ghost before = order_idx@;
        let ghost kp = cands@[k as int].position as int;
        proof {
            assert forall|i: int| 0 <= i < p implies precedes(
                definition.sort,
                tv,
                cands@[#[trigger] before[i] as int].position as int,
                kp,
            ) by {
                let q = cands@[before[i] as int].position as int;
                assert(before[i] < k);
                assert(q < kp);
                lemma_precedes_strict_total_order(definition.sort, tv, kp, q, kp);
            }
            assert forall|j: int| p <= j < before.len() implies precedes(
                definition.sort,
                tv,
                kp,
                cands@[#[trigger] before[j] as int].position as int,
            ) by {
                let qp = cands@[before[p as int] as int].position as int;
                let qj = cands@[before[j] as int].position as int;
                if j > p {
                    lemma_precedes_strict_total_order(definition.sort, tv, kp, qp, qj);
                }
            }
        }
        order_idx.insert(p, k);
        proof {
            assert(order_idx@ == before.insert(p as int, k));
            assert forall|i: int, j: int|
                0 <= i < j < order_idx@.len() implies precedes(
                    definition.sort,
                    tv,
                    cands@[#[trigger] order_idx@[i] as int].position as int,
                    cands@[#[trigger] order_idx@[j] as int].position as int,
                ) by {
                if i < p && j < p {
                    assert(order_idx@[i] == before[i] && order_idx@[j] == before[j]);
                } else if i < p && j == p {
                    assert(order_idx@[i] == before[i] && order_idx@[j] == k);
                } else if i < p {
                    assert(order_idx@[i] == before[i] && order_idx@[j] == before[j - 1]);
                } else if i == p {
                    assert(order_idx@[i] == k && order_idx@[j] == before[j - 1]);
                } else {
                    assert(order_idx@[i] == before[i - 1] && order_idx@[j] == before[j - 1]);
                }
            }
            assert forall|c: usize| c < k + 1 implies #[trigger] order_idx@.contains(c) by {
                if c == k {
                    assert(order_idx@[p as int] == k);
                } else {
                    assert(before.contains(c));
                    let w = choose|w: int| 0 <= w < before.len() && before[w] == c;
                    if w < p {
                        assert(order_idx@[w] == before[w]);
                    } else {
                        assert(order_idx@[w + 1] == before[w]);
                    }
                }
            }
            assert forall|i: int| 0 <= i < order_idx@.len() implies (#[trigger] order_idx@[i]) < k + 1 by {
                if i < p {
                    assert(order_idx@[i] == before[i]);
                } else if i > p {
                    assert(order_idx@[i] == before[i - 1]);
                }
            }
        }
        k = k + 1;
    }

    let limit = match definition.limit {
        Some(l) => if (l as usize) < n {
            l as usize
        } else {
            n
        },
        None => n,
    };
    let ghost order = order_idx@.map_values(|c: usize| cands@[c as int].position as int);
    let mut matches: Vec<SmartPlaylistMatch> = Vec::new();
    let mut m: usize = 0;
    while m < limit
        invariant
            m <= limit <= n,
            n == cands@.len(),
            order_idx@.len() == n,
            tv == views(tracks@),
            tv.len() == tracks@.len(),
            forall|i: int| 0 <= i < cands@.len() ==> candidate_ok(*definition, tv, favs, now_ms, #[trigger] cands@[i]),
            forall|i: int| 0 <= i < order_idx@.len() ==> (#[trigger] order_idx@[i]) < n,
            order == order_idx@.map_values(|c: usize| cands@[c as int].position as int),
            matches@.len() == m,
            forall|i: int|
                0 <= i < m ==> {
                    &&& (#[trigger] matches@[i]).track_id@ == tv[order[i]].id
                    &&& matches@[i].matched_rule_indexes@ == track_rules(
                        *definition,
                        tv[order[i]],
                        favs,
                        now_ms,
                    )
                },
        decreases limit - m,
    {
        let c = &cands[order_idx[m]];
        assert(tv[c.position as int] == tracks@[c.position as int]@);
        let entry = SmartPlaylistMatch {
            track_id: tracks[c.position].id.clone(),
            matched_rule_indexes: copy_indexes(&c.matched),
        };
        matches.push(entry);
        m = m + 1;
    }
    let res = SmartPlaylistPreview { total_matches: n, matches };
    proof {
        assert forall|i: int|
            0 <= i < order.len() implies 0 <= #[trigger] order[i] < tv.len() && track_selected(
                *definition,
                tv[order[i]],
                favs,
                now_ms,
            ) by {
            assert(candidate_ok(*definition, tv, favs, now_ms, cands@[order_idx@[i] as int]));
        }
        assert forall|p: int|
            0 <= p < tv.len() && track_selected(*definition, #[trigger] tv[p], favs, now_ms)
                implies order.contains(p) by {
            let ci = choose|ci: int| 0 <= ci < cands@.len() && cands@[ci].position == p;
            assert(order_idx@.contains(ci as usize));
            let w = choose|w: int| 0 <= w < order_idx@.len() && order_idx@[w] == ci as usize;
            assert(order[w] == p);
        }
        assert forall|i: int, j: int| 0 <= i < j < order.len() implies precedes(
            definition.sort,
            tv,
            #[trigger] order[i],
            #[trigger] order[j],
        ) by {
            assert(order[i] == cands@[order_idx@[i] as int].position as int);
            assert(order[j] == cands@[order_idx@[j] as int].position as int);
        }
        assert(resolution_order(*definition, tv, favs, now_ms, order));
        assert(preview_of(*definition, tv, favs, now_ms, order, res));
    }
    res
}


proof fn lemma_sorted_same_elements_equal(
    sort: SmartPlaylistSort,
    tracks: Seq<MediaItemView>,
    a: Seq<int>,
    b: Seq<int>,
)
    requires
        forall|i: int, j: int| 0 <= i < j < a.len() ==> precedes(sort, tracks, #[trigger] a[i], #[trigger] a[j]),
        forall|i: int, j: int| 0 <= i < j < b.len() ==> precedes(sort, tracks, #[trigger] b[i], #[trigger] b[j]),
        forall|x: int| a.contains(x) == b.contains(x),
    ensures
        a == b,
    decreases a.len(),
{
    if a.len() == 0 {
        if b.len() > 0 {
            assert(b.contains(b[0]));
        }
        assert(a =~= b);
    } else {
        assert(a.contains(a[0]));
        assert(b.len() > 0);
        assert(b.contains(b[0]));
        if a[0] != b[0] {
            let j = choose|j: int| 0 <= j < b.len() && b[j] == a[0];
            let i = choose|i: int| 0 <= i < a.len() && a[i] == b[0];
            assert(j > 0 && i > 0);
            assert(precedes(sort, tracks, b[0], b[j]));
            assert(precedes(sort, tracks, a[0], a[i]));
            lemma_precedes_strict_total_order(sort, tracks, a[0], b[0], a[0]);
        }
        let a1 = a.drop_first();
        let b1 = b.drop_first();
        assert forall|x: int| a1.contains(x) == b1.contains(x) by {
            if a1.contains(x) {
                let i = choose|i: int| 0 <= i < a1.len() && a1[i] == x;
                assert(a[i + 1] == x);
                assert(precedes(sort, tracks, a[0], a[i + 1]));
                lemma_precedes_strict_total_order(sort, tracks, x, x, x);
                assert(b.contains(x));
                let j = choose|j: int| 0 <= j < b.len() && b[j] == x;
                assert(j != 0);
                assert(b1[j - 1] == x);
            }
            if b1.contains(x) {
                let j = choose|j: int| 0 <= j < b1.len() && b1[j] == x;
                assert(b[j + 1] == x);
                assert(precedes(sort, tracks, b[0], b[j + 1]));
                lemma_precedes_strict_total_order(sort, tracks, x, x, x);
                assert(a.contains(x));
                let i = choose|i: int| 0 <= i < a.len() && a[i] == x;
                assert(i != 0);
                assert(a1[i - 1] == x);
            }
        }
        assert forall|i: int, j: int| 0 <= i < j < a1.len() implies precedes(sort, tracks, #[trigger] a1[i], #[trigger] a1[j]) by {
            assert(a1[i] == a[i + 1] && a1[j] == a[j + 1]);
        }
        assert forall|i: int, j: int| 0 <= i < j < b1.len() implies precedes(sort, tracks, #[trigger] b1[i], #[trigger] b1[j]) by {
            assert(b1[i] == b[i + 1] && b1[j] == b[j + 1]);
        }
        lemma_sorted_same_elements_equal(sort, tracks, a1, b1);
        assert(a =~= seq![a[0]] + a1);
        assert(b =~= seq![b[0]] + b1);
    }
}

/// A definition has one resolution order: the selected tracks sorted by `precedes` are
/// determined by the definition, the library, Favorites and the clock.
pub proof fn lemma_resolution_order_unique(
    definition: SmartPlaylistDefinition,
    tracks: Seq<MediaItemView>,
    favorites: Seq<Seq<char>>,
    now_ms: u64,
    first: Seq<int>,
    second: Seq<int>,
)
    requires
        resolution_order(definition, tracks, favorites, now_ms, first),
        resolution_order(definition, tracks, favorites, now_ms, second),
    ensures
        first == second,
{
    assert forall|x: int| first.contains(x) == second.contains(x) by {
        if first.contains(x) {
            let i = choose|i: int| 0 <= i < first.len() && first[i] == x;
            assert(0 <= first[i] < tracks.len());
        }
        if second.contains(x) {
            let i = choose|i: int| 0 <= i < second.len() && second[i] == x;
            assert(0 <= second[i] < tracks.len());
        }
    }
    lemma_sorted_same_elements_equal(definition.sort, tracks, first, second);
}

} // verus!

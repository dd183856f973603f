//! Selectors: their syntax, their specificity and how they match nodes.

use crate::text::{
    char_is_alphanumeric, find_from, from_chars, is_alphanumeric, lowercase_of, scan_to,
    str_to_lowercase, strip, stripped, subvec, to_chars, trim, trimmed,
};
use crate::dom::attributes::{class_listed, has_class_in, word_listed};
use crate::dom::document::Document;
use crate::dom::node::{Node, NodeId, NodeModel};
use crate::text::{contains, ends_with, has_infix, has_prefix, has_suffix, starts_with, str_eq};
use vstd::prelude::*;

verus! {

/// The weight of a selector: inline flag, then the numbers of id selectors,
/// of class, attribute and pseudo-class selectors, and of type and
/// pseudo-element selectors. Compared in that order.
#[derive(Debug, Clone, Copy, PartialEq, Eq, PartialOrd, Ord, Structural)]
pub struct Specificity(pub u32, pub u32, pub u32, pub u32);

impl Specificity {
    pub fn new(inline: u32, ids: u32, classes: u32, types: u32) -> (r: Self)
        ensures
            r == Specificity(inline, ids, classes, types),
    {
        Specificity(inline, ids, classes, types)
    }

    /// The weight as one number, each component scaled by a hundred more
    /// than the next.
    pub open spec fn value_spec(&self) -> int {
        self.0 * 1000000 + self.1 * 10000 + self.2 * 100 + self.3
    }

    /// The weight as one number, for weights whose number fits.
    pub fn value(&self) -> (r: u32)
        requires
            self.value_spec() <= u32::MAX,
        ensures
            r == self.value_spec(),
    {
        self.0 * 1000000 + self.1 * 10000 + self.2 * 100 + self.3
    }

    /// Whether this weight is at least `other`, comparing the components in
    /// order.
    pub open spec fn at_least(&self, other: Specificity) -> bool {
        if self.0 != other.0 {
            self.0 > other.0
        } else if self.1 != other.1 {
            self.1 > other.1
        } else if self.2 != other.2 {
            self.2 > other.2
        } else {
            self.3 >= other.3
        }
    }

    /// Whether this weight is at least `other`.
    pub fn ge(&self, other: &Specificity) -> (r: bool)
        ensures
            r == self.at_least(*other),
    {
        if self.0 != other.0 {
            self.0 > other.0
        } else if self.1 != other.1 {
            self.1 > other.1
        } else if self.2 != other.2 {
            self.2 > other.2
        } else {
            self.3 >= other.3
        }
    }
}

impl Default for Specificity {
    fn default() -> (r: Self)
        ensures
            r == Specificity(0, 0, 0, 0),
    {
        Specificity(0, 0, 0, 0)
    }
}

/// How an attribute selector compares the attribute's value.
#[derive(Debug, Clone, Copy, PartialEq, Eq, Structural)]
pub enum AttributeOp {
    /// `[attr=value]`: the value is exactly this.
    Exact,
    /// `[attr~=value]`: one of the value's words is this.
    Contains,
    /// `[attr|=value]`: the value is this, or starts with this and a hyphen.
    StartsWith,
    /// `[attr^=value]`: the value starts with this.
    Prefix,
    /// `[attr$=value]`: the value ends with this.
    Suffix,
    /// `[attr*=value]`: this occurs in the value.
    Substring,
}

/// How two neighbouring compound selectors relate.
#[derive(Debug, Clone, Copy, PartialEq, Eq, Structural)]
pub enum Combinator {
    /// White space: some ancestor.
    Descendant,
    /// `>`: the parent.
    Child,
    /// `+`: the previous sibling.
    Adjacent,
    /// `~`: some earlier sibling.
    Sibling,
}

/// One simple selector.
#[derive(Debug, Clone, PartialEq)]
pub enum SelectorPart {
    /// `*`
    Universal,
    /// An element name.
    Type(String),
    /// `#id`
    Id(String),
    /// `.class`
    Class(String),
    /// `[attr]`, or `[attr OP value]`.
    Attribute { name: String, op: Option<AttributeOp>, value: Option<String> },
    /// `:name`
    PseudoClass(String),
    /// `::name`
    PseudoElement(String),
}

/// What a simple selector says, as plain text.
pub enum PartModel {
    Universal,
    Type(Seq<char>),
    Id(Seq<char>),
    Class(Seq<char>),
    Attribute { name: Seq<char>, op: Option<AttributeOp>, value: Option<Seq<char>> },
    PseudoClass(Seq<char>),
    PseudoElement(Seq<char>),
}

impl View for SelectorPart {
    type V = PartModel;

    open spec fn view(&self) -> PartModel {
        match self {
            SelectorPart::Universal => PartModel::Universal,
            SelectorPart::Type(s) => PartModel::Type(s@),
            SelectorPart::Id(s) => PartModel::Id(s@),
            SelectorPart::Class(s) => PartModel::Class(s@),
            SelectorPart::Attribute { name, op, value } => PartModel::Attribute {
                name: name@,
                op: *op,
                value: match value {
                    Some(v) => Some(v@),
                    None => None,
                },
            },
            SelectorPart::PseudoClass(s) => PartModel::PseudoClass(s@),
            SelectorPart::PseudoElement(s) => PartModel::PseudoElement(s@),
        }
    }
}

/// A compound selector with the combinator that follows it, if any.
pub type GroupModel = (Seq<PartModel>, Option<Combinator>);

/// The models of a list of simple selectors.
pub open spec fn parts_model(parts: Seq<SelectorPart>) -> Seq<PartModel> {
    parts.map_values(|p: SelectorPart| p@)
}

/// The models of a list of compound selectors.
pub open spec fn groups_model(groups: Seq<(Vec<SelectorPart>, Option<Combinator>)>) -> Seq<
    GroupModel,
> {
    groups.map_values(|g: (Vec<SelectorPart>, Option<Combinator>)| (parts_model(g.0@), g.1))
}

/// The classes of characters that the selector syntax reads in runs.
#[derive(Debug, Clone, Copy, PartialEq, Eq, Structural)]
pub enum CharClass {
    /// The space character.
    Space,
    /// A character of an id or class name: alphanumeric, `-` or `_`.
    Name,
    /// A character of a pseudo-class name: alphanumeric or `-`.
    PseudoName,
    /// Any character but `]`.
    InBrackets,
}

/// Whether `c` belongs to the class `k`.
pub open spec fn in_class(c: char, k: CharClass) -> bool {
    match k {
        CharClass::Space => c == ' ',
        CharClass::Name => is_alphanumeric(c) || c == '-' || c == '_',
        CharClass::PseudoName => is_alphanumeric(c) || c == '-',
        CharClass::InBrackets => c != ']',
    }
}

/// The length of the longest run of characters of class `k` that starts at
/// index `i`.
pub open spec fn run_len(s: Seq<char>, i: int, k: CharClass) -> nat
    decreases s.len() - i,
{
    if 0 <= i < s.len() && in_class(s[i], k) {
        1 + run_len(s, i + 1, k)
    } else {
        0
    }
}

pub proof fn lemma_run_len_bound(s: Seq<char>, i: int, k: CharClass)
    requires
        0 <= i <= s.len(),
    ensures
        i + run_len(s, i, k) <= s.len(),
    decreases s.len() - i,
{
    if i < s.len() && in_class(s[i], k) {
        lemma_run_len_bound(s, i + 1, k);
    }
}

fn char_in_class(c: char, k: CharClass) -> (r: bool)
    ensures
        r == in_class(c, k),
{
    match k {
        CharClass::Space => c == ' ',
        CharClass::Name => char_is_alphanumeric(c) || c == '-' || c == '_',
        CharClass::PseudoName => char_is_alphanumeric(c) || c == '-',
        CharClass::InBrackets => c != ']',
    }
}

/// The index at which the run of class `k` that starts at `i` ends.
fn run_end(v: &Vec<char>, i: usize, k: CharClass) -> (j: usize)
    requires
        i <= v.len(),
    ensures
        j == i + run_len(v@, i as int, k),
        i <= j <= v.len(),
{
    let mut j: usize = i;
    while j < v.len() && char_in_class(v[j], k)
        invariant
            i <= j <= v.len(),
            i + run_len(v@, i as int, k) == j + run_len(v@, j as int, k),
        decreases v.len() - j,
    {
        j += 1;
    }
    j
}

/// Splits what stands before `=` in an attribute selector into the
/// attribute's name and the comparison that its last character asks for.
pub open spec fn split_operator(n: Seq<char>) -> (Seq<char>, AttributeOp) {
    if n.len() > 0 && n.last() == '~' {
        (n.drop_last(), AttributeOp::Contains)
    } else if n.len() > 0 && n.last() == '|' {
        (n.drop_last(), AttributeOp::StartsWith)
    } else if n.len() > 0 && n.last() == '^' {
        (n.drop_last(), AttributeOp::Prefix)
    } else if n.len() > 0 && n.last() == '$' {
        (n.drop_last(), AttributeOp::Suffix)
    } else if n.len() > 0 && n.last() == '*' {
        (n.drop_last(), AttributeOp::Substring)
    } else {
        (n, AttributeOp::Exact)
    }
}

/// The attribute selector that the text between `[` and `]` stands for.
/// White space around the whole text is dropped; empty text stands for
/// nothing. Without `=` the text is a name to be present. With one, the name
/// is what precedes it, less a trailing operator character, and the value is
/// what follows, less surrounding double and then single quotes.
pub open spec fn attribute_of(s: Seq<char>) -> Option<PartModel> {
    let t = trimmed(s);
    let pos = scan_to(t, '=', 0);
    if t.len() == 0 {
        None
    } else if pos >= t.len() {
        Some(PartModel::Attribute { name: t, op: None, value: None })
    } else {
        let sides = split_operator(t.subrange(0, pos));
        let v = t.subrange(pos + 1, t.len() as int);
        Some(
            PartModel::Attribute {
                name: sides.0,
                op: Some(sides.1),
                value: Some(stripped(stripped(v, '"'), '\'')),
            },
        )
    }
}

/// The simple selectors of a compound once a pending element name is added.
pub open spec fn flushed(current: Seq<PartModel>, buffer: Seq<char>) -> Seq<PartModel> {
    if buffer.len() > 0 {
        current.push(PartModel::Type(lowercase_of(buffer)))
    } else {
        current
    }
}

/// The compound selectors closed so far once the compound under way is
/// closed with the combinator `comb`; an empty compound is dropped.
pub open spec fn closed(groups: Seq<GroupModel>, current: Seq<PartModel>, comb: Option<Combinator>) -> Seq<
    GroupModel,
> {
    if current.len() > 0 {
        groups.push((current, comb))
    } else {
        groups
    }
}

/// With an optional attribute selector added.
pub open spec fn with_attribute(current: Seq<PartModel>, part: Option<PartModel>) -> Seq<PartModel> {
    match part {
        Some(p) => current.push(p),
        None => current,
    }
}

/// Reads the selector text `s` from index `i` on. `groups` are the compound
/// selectors already closed, `current` the simple selectors of the compound
/// under way and `buffer` the element name under way.
///
/// A space, `>`, `+` or `~` closes the compound under way: spaces are
/// skipped, then one of `>`, `+`, `~` with the spaces behind it names the
/// combinator, and none of them means a descendant. `#` and `.` read a name,
/// `:` a pseudo-class name, `[` the text up to the next `]`, `*` is the
/// universal selector, and any other character belongs to an element name,
/// which is stored in lowercase.
pub open spec fn parse_from(
    s: Seq<char>,
    i: int,
    groups: Seq<GroupModel>,
    current: Seq<PartModel>,
    buffer: Seq<char>,
) -> Seq<GroupModel>
    decreases s.len() + 1 - i,
{
    if i < 0 || i >= s.len() {
        closed(groups, flushed(current, buffer), None)
    } else {
        let c = s[i];
        let cur = flushed(current, buffer);
        proof {
            lemma_run_len_bound(s, i + 1, CharClass::Name);
            lemma_run_len_bound(s, i + 1, CharClass::PseudoName);
            lemma_run_len_bound(s, i + 1, CharClass::InBrackets);
            lemma_run_len_bound(s, i, CharClass::Space);
            if i + run_len(s, i, CharClass::Space) < s.len() {
                lemma_run_len_bound(s, i + run_len(s, i, CharClass::Space) + 1, CharClass::Space);
            }
        }
        if c == ' ' || c == '>' || c == '+' || c == '~' {
            let j = i + run_len(s, i, CharClass::Space);
            let after = j + 1 + run_len(s, j + 1, CharClass::Space);
            if j < s.len() && s[j] == '>' {
                parse_from(s, after, closed(groups, cur, Some(Combinator::Child)), Seq::empty(), Seq::empty())
            } else if j < s.len() && s[j] == '+' {
                parse_from(s, after, closed(groups, cur, Some(Combinator::Adjacent)), Seq::empty(), Seq::empty())
            } else if j < s.len() && s[j] == '~' {
                parse_from(s, after, closed(groups, cur, Some(Combinator::Sibling)), Seq::empty(), Seq::empty())
            } else if j > i {
                parse_from(s, j, closed(groups, cur, Some(Combinator::Descendant)), Seq::empty(), Seq::empty())
            } else {
                groups
            }
        } else if c == '#' {
            let n = run_len(s, i + 1, CharClass::Name);
            parse_from(s, i + 1 + n, groups, cur.push(PartModel::Id(s.subrange(i + 1, i + 1 + n))), Seq::empty())
        } else if c == '.' {
            let n = run_len(s, i + 1, CharClass::Name);
            parse_from(s, i + 1 + n, groups, cur.push(PartModel::Class(s.subrange(i + 1, i + 1 + n))), Seq::empty())
        } else if c == '*' {
            parse_from(s, i + 1, groups, current.push(PartModel::Universal), buffer)
        } else if c == '[' {
            let n = run_len(s, i + 1, CharClass::InBrackets);
            let part = attribute_of(s.subrange(i + 1, i + 1 + n));
            parse_from(s, i + 2 + n, groups, with_attribute(cur, part), Seq::empty())
        } else if c == ':' {
            let n = run_len(s, i + 1, CharClass::PseudoName);
            parse_from(s, i + 1 + n, groups, cur.push(PartModel::PseudoClass(s.subrange(i + 1, i + 1 + n))), Seq::empty())
        } else {
            parse_from(s, i + 1, groups, current, buffer.push(c))
        }
    }
}

/// The compound selectors of a selector text, each with the combinator that
/// follows it; the last has none. White space around the text is dropped.
pub open spec fn parsed_groups(s: Seq<char>) -> Seq<GroupModel> {
    parse_from(trimmed(s), 0, Seq::empty(), Seq::empty(), Seq::empty())
}

/// Which count of the weight a simple selector adds to: 1 for an id, 2 for
/// a class, an attribute or a pseudo-class, 3 for a type or a
/// pseudo-element, 0 for the universal selector, which adds to none.
pub open spec fn part_rank(p: PartModel) -> int {
    match p {
        PartModel::Id(_) => 1,
        PartModel::Class(_) => 2,
        PartModel::Attribute { .. } => 2,
        PartModel::PseudoClass(_) => 2,
        PartModel::Type(_) => 3,
        PartModel::PseudoElement(_) => 3,
        PartModel::Universal => 0,
    }
}

/// How many of the simple selectors add to the count `rank`.
pub open spec fn count_rank(parts: Seq<PartModel>, rank: int) -> nat
    decreases parts.len(),
{
    if parts.len() == 0 {
        0
    } else {
        count_rank(parts.drop_last(), rank) + if part_rank(parts.last()) == rank {
            1nat
        } else {
            0nat
        }
    }
}

/// How many simple selectors of all the compounds add to the count `rank`.
pub open spec fn count_rank_groups(groups: Seq<GroupModel>, rank: int) -> nat
    decreases groups.len(),
{
    if groups.len() == 0 {
        0
    } else {
        count_rank_groups(groups.drop_last(), rank) + count_rank(groups.last().0, rank)
    }
}

/// A count as a component of a weight: counts beyond the largest `u32`
/// stay at it.
pub open spec fn capped(n: nat) -> u32 {
    if n >= u32::MAX {
        u32::MAX
    } else {
        n as u32
    }
}

/// The weight of a selector: no inline flag, and the three counts over all
/// its simple selectors.
pub open spec fn specificity_of(groups: Seq<GroupModel>) -> Specificity {
    Specificity(
        0,
        capped(count_rank_groups(groups, 1)),
        capped(count_rank_groups(groups, 2)),
        capped(count_rank_groups(groups, 3)),
    )
}

/// The model of an optional simple selector.
pub open spec fn optional_part_model(p: Option<SelectorPart>) -> Option<PartModel> {
    match p {
        Some(x) => Some(x@),
        None => None,
    }
}

pub proof fn lemma_parts_push(v: Seq<SelectorPart>, p: SelectorPart)
    ensures
        parts_model(v.push(p)) == parts_model(v).push(p@),
{
    assert(parts_model(v.push(p)) =~= parts_model(v).push(p@));
}

pub proof fn lemma_groups_push(
    g: Seq<(Vec<SelectorPart>, Option<Combinator>)>,
    x: (Vec<SelectorPart>, Option<Combinator>),
)
    ensures
        groups_model(g.push(x)) == groups_model(g).push((parts_model(x.0@), x.1)),
{
    assert(groups_model(g.push(x)) =~= groups_model(g).push((parts_model(x.0@), x.1)));
}

fn flush(current: &mut Vec<SelectorPart>, buffer: &mut Vec<char>)
    ensures
        parts_model(final(current)@) == flushed(parts_model(old(current)@), old(buffer)@),
        final(buffer)@ == Seq::<char>::empty(),
{
    if buffer.len() > 0 {
        let name = from_chars(buffer);
        let lower = str_to_lowercase(name.as_str());
        proof {
            lemma_parts_push(current@, SelectorPart::Type(lower));
        }
        current.push(SelectorPart::Type(lower));
        buffer.clear();
    }
    assert(buffer@ =~= Seq::<char>::empty());
}

fn close(
    groups: &mut Vec<(Vec<SelectorPart>, Option<Combinator>)>,
    current: Vec<SelectorPart>,
    comb: Option<Combinator>,
)
    ensures
        groups_model(final(groups)@) == closed(
            groups_model(old(groups)@),
            parts_model(current@),
            comb,
        ),
{
    if current.len() > 0 {
        proof {
            lemma_groups_push(groups@, (current, comb));
        }
        groups.push((current, comb));
    }
}

fn attribute_from_chars(v: &Vec<char>) -> (r: Option<SelectorPart>)
    ensures
        optional_part_model(r) == attribute_of(v@),
{
    let t = trim(v);
    if t.len() == 0 {
        return None;
    }
    let pos = find_from(&t, '=', 0);
    if pos >= t.len() {
        return Some(SelectorPart::Attribute { name: from_chars(&t), op: None, value: None });
    }
    let n = subvec(&t, 0, pos);
    let raw = subvec(&t, pos + 1, t.len());
    let value = strip(&strip(&raw, '"'), '\'');
    let last: char = if n.len() > 0 {
        n[n.len() - 1]
    } else {
        '='
    };
    let op = if last == '~' {
        AttributeOp::Contains
    } else if last == '|' {
        AttributeOp::StartsWith
    } else if last == '^' {
        AttributeOp::Prefix
    } else if last == '$' {
        AttributeOp::Suffix
    } else if last == '*' {
        AttributeOp::Substring
    } else {
        AttributeOp::Exact
    };
    let name = if n.len() > 0 && last != '=' && (last == '~' || last == '|' || last == '^' || last
        == '$' || last == '*') {
        subvec(&n, 0, n.len() - 1)
    } else {
        n
    };
    assert(name@ == split_operator(t@.subrange(0, pos as int)).0);
    Some(SelectorPart::Attribute { name: from_chars(&name), op: Some(op), value: Some(from_chars(&value)) })
}

/// A selector: compound selectors from left to right, each with the
/// combinator that follows it, and the selector's weight.
#[derive(Debug, Clone)]
pub struct Selector {
    /// The compound selectors; the last one carries no combinator.
    pub parts: Vec<(Vec<SelectorPart>, Option<Combinator>)>,
    specificity: Specificity,
}

/// A selector as plain values.
pub struct SelectorModel {
    pub groups: Seq<GroupModel>,
    pub weight: Specificity,
}

impl View for Selector {
    type V = SelectorModel;

    closed spec fn view(&self) -> SelectorModel {
        SelectorModel { groups: groups_model(self.parts@), weight: self.specificity }
    }
}

/// The selector that a text stands for, if it holds any simple selector.
pub open spec fn selector_of(s: Seq<char>) -> Option<SelectorModel> {
    let groups = parsed_groups(s);
    if groups.len() > 0 {
        Some(SelectorModel { groups, weight: specificity_of(groups) })
    } else {
        None
    }
}

/// The view of an optional selector.
pub open spec fn optional_selector(s: Option<Selector>) -> Option<SelectorModel> {
    match s {
        Some(x) => Some(x@),
        None => None,
    }
}

impl Selector {
    /// The compound selectors as plain text.
    pub open spec fn groups(&self) -> Seq<GroupModel> {
        self@.groups
    }

    /// The weight stored with the selector.
    pub open spec fn weight(&self) -> Specificity {
        self@.weight
    }

    /// Reads a selector. There is none where the text holds no simple
    /// selector at all, as in an empty text.
    pub fn parse(input: &str) -> (r: Option<Selector>)
        ensures
            optional_selector(r) == selector_of(input@),
    {
        let raw = to_chars(input);
        let v = trim(&raw);
        let n = v.len();
        let mut groups: Vec<(Vec<SelectorPart>, Option<Combinator>)> = Vec::new();
        let mut current: Vec<SelectorPart> = Vec::new();
        let mut buffer: Vec<char> = Vec::new();
        let mut i: usize = 0;
        assert(groups_model(groups@) =~= Seq::<GroupModel>::empty());
        assert(parts_model(current@) =~= Seq::<PartModel>::empty());
        while i < n
            invariant
                i <= n,
                n == v.len(),
                parsed_groups(input@) == parse_from(
                    v@,
                    i as int,
                    groups_model(groups@),
                    parts_model(current@),
                    buffer@,
                ),
            decreases n - i,
        {
            let c = v[i];
            if c == ' ' || c == '>' || c == '+' || c == '~' {
                flush(&mut current, &mut buffer);
                let j = run_end(&v, i, CharClass::Space);
                let mark: char = if j < n {
                    v[j]
                } else {
                    ' '
                };
                if mark == '>' || mark == '+' || mark == '~' {
                    let comb = if mark == '>' {
                        Combinator::Child
                    } else if mark == '+' {
                        Combinator::Adjacent
                    } else {
                        Combinator::Sibling
                    };
                    close(&mut groups, current, Some(comb));
                    i = run_end(&v, j + 1, CharClass::Space);
                } else {
                    close(&mut groups, current, Some(Combinator::Descendant));
                    i = j;
                }
                current = Vec::new();
                assert(parts_model(current@) =~= Seq::<PartModel>::empty());
            } else if c == '#' {
                flush(&mut current, &mut buffer);
                let j = run_end(&v, i + 1, CharClass::Name);
                let name = from_chars(&subvec(&v, i + 1, j));
                proof {
                    lemma_parts_push(current@, SelectorPart::Id(name));
                }
                current.push(SelectorPart::Id(name));
                i = j;
            } else if c == '.' {
                flush(&mut current, &mut buffer);
                let j = run_end(&v, i + 1, CharClass::Name);
                let name = from_chars(&subvec(&v, i + 1, j));
                proof {
                    lemma_parts_push(current@, SelectorPart::Class(name));
                }
                current.push(SelectorPart::Class(name));
                i = j;
            } else if c == '*' {
                proof {
                    lemma_parts_push(current@, SelectorPart::Universal);
                }
                current.push(SelectorPart::Universal);
                i += 1;
            } else if c == '[' {
                flush(&mut current, &mut buffer);
                let j = run_end(&v, i + 1, CharClass::InBrackets);
                let part = attribute_from_chars(&subvec(&v, i + 1, j));
                match part {
                    Some(p) => {
                        proof {
                            lemma_parts_push(current@, p);
                        }
                        current.push(p);
                    },
                    None => {},
                }
                assert(parse_from(
                    v@,
                    n + 1,
                    groups_model(groups@),
                    parts_model(current@),
                    buffer@,
                ) == parse_from(
                    v@,
                    n as int,
                    groups_model(groups@),
                    parts_model(current@),
                    buffer@,
                ));
                i = if j < n {
                    j + 1
                } else {
                    j
                };
            } else if c == ':' {
                flush(&mut current, &mut buffer);
                let j = run_end(&v, i + 1, CharClass::PseudoName);
                let name = from_chars(&subvec(&v, i + 1, j));
                proof {
                    lemma_parts_push(current@, SelectorPart::PseudoClass(name));
                }
                current.push(SelectorPart::PseudoClass(name));
                i = j;
            } else {
                buffer.push(c);
                i += 1;
            }
        }
        flush(&mut current, &mut buffer);
        close(&mut groups, current, None);
        if groups.len() == 0 {
            return None;
        }
        let specificity = Self::calculate_specificity(groups.as_slice());
        Some(Selector { parts: groups, specificity })
    }

    /// Reads the text between `[` and `]` of an attribute selector.
    pub fn parse_attribute(s: &str) -> (r: Option<SelectorPart>)
        ensures
            optional_part_model(r) == attribute_of(s@),
    {
        let v = to_chars(s);
        attribute_from_chars(&v)
    }

    /// The weight of a list of compound selectors.
    pub fn calculate_specificity(parts: &[(Vec<SelectorPart>, Option<Combinator>)]) -> (r:
        Specificity)
        ensures
            r == specificity_of(groups_model(parts@)),
    {
        let mut ids: u32 = 0;
        let mut classes: u32 = 0;
        let mut types: u32 = 0;
        let mut g: usize = 0;
        let ghost all = groups_model(parts@);
        assert(all.take(0) =~= Seq::<GroupModel>::empty());
        while g < parts.len()
            invariant
                g <= parts.len(),
                all == groups_model(parts@),
                ids == capped(count_rank_groups(all.take(g as int), 1)),
                classes == capped(count_rank_groups(all.take(g as int), 2)),
                types == capped(count_rank_groups(all.take(g as int), 3)),
            decreases parts.len() - g,
        {
            let list = &parts[g].0;
            let ghost models = parts_model(list@);
            let ghost before = all.take(g as int);
            let mut k: usize = 0;
            assert(models.take(0) =~= Seq::<PartModel>::empty());
            while k < list.len()
                invariant
                    k <= list.len(),
                    models == parts_model(list@),
                    ids == capped(count_rank_groups(before, 1) + count_rank(models.take(k as int), 1)),
                    classes == capped(
                        count_rank_groups(before, 2) + count_rank(models.take(k as int), 2),
                    ),
                    types == capped(count_rank_groups(before, 3) + count_rank(models.take(k as int), 3)),
                decreases list.len() - k,
            {
                assert(models.take(k + 1).drop_last() =~= models.take(k as int));
                assert(models.take(k + 1).last() == list@[k as int]@);
                match &list[k] {
                    SelectorPart::Id(_) => {
                        if ids < u32::MAX {
                            ids += 1;
                        }
                    },
                    SelectorPart::Class(_) | SelectorPart::Attribute { .. } | SelectorPart::PseudoClass(
                        _,
                    ) => {
                        if classes < u32::MAX {
                            classes += 1;
                        }
                    },
                    SelectorPart::Type(_) | SelectorPart::PseudoElement(_) => {
                        if types < u32::MAX {
                            types += 1;
                        }
                    },
                    SelectorPart::Universal => {},
                }
                k += 1;
            }
            assert(models.take(list.len() as int) =~= models);
            assert(all.take(g + 1).drop_last() =~= all.take(g as int));
            assert(all.take(g + 1).last().0 == models);
            g += 1;
        }
        assert(all.take(parts.len() as int) =~= all);
        Specificity::new(0, ids, classes, types)
    }

    /// The selector's weight.
    pub fn specificity(&self) -> (r: Specificity)
        ensures
            r == self.weight(),
    {
        self.specificity
    }
}

/// Whether an attribute's value `a` stands in the relation `op` to the
/// selector's value `v`.
pub open spec fn value_matches(op: AttributeOp, a: Seq<char>, v: Seq<char>) -> bool {
    match op {
        AttributeOp::Exact => a == v,
        AttributeOp::Contains => class_listed(a, v),
        AttributeOp::StartsWith => a == v || has_prefix(a, v.push('-')),
        AttributeOp::Prefix => has_prefix(a, v),
        AttributeOp::Suffix => has_suffix(a, v),
        AttributeOp::Substring => has_infix(a, v),
    }
}

/// Whether a node satisfies one simple selector. Pseudo-classes and
/// pseudo-elements are satisfied by no node.
pub open spec fn part_matches(n: NodeModel, p: PartModel) -> bool {
    match p {
        PartModel::Universal => true,
        PartModel::Type(t) => n.data.tag() == Some(t),
        PartModel::Id(id) => n.data.attribute("id"@) == Some(id),
        PartModel::Class(c) => match n.data.attributes() {
            Some(a) => has_class_in(a, c),
            None => false,
        },
        PartModel::Attribute { name, op, value } => match n.data.attribute(name) {
            None => false,
            Some(a) => match op {
                None => true,
                Some(o) => match value {
                    Some(v) => value_matches(o, a, v),
                    None => false,
                },
            },
        },
        PartModel::PseudoClass(_) => false,
        PartModel::PseudoElement(_) => false,
    }
}

/// Whether a node satisfies every simple selector of a compound.
pub open spec fn compound_matches(n: NodeModel, parts: Seq<PartModel>) -> bool {
    forall|i: int| 0 <= i < parts.len() ==> part_matches(n, #[trigger] parts[i])
}

/// One step from node `id`: to its parent where `up`, else to the sibling
/// just before it.
pub open spec fn hop(nodes: Seq<NodeModel>, id: usize, up: bool) -> Option<usize> {
    if id < nodes.len() {
        let link = if up {
            nodes[id as int].parent
        } else {
            nodes[id as int].prev_sibling
        };
        match link {
            Some(n) => Some(n.0),
            None => None,
        }
    } else {
        None
    }
}

/// The node `k` steps from node `id`, if the links lead that far.
pub open spec fn reach(nodes: Seq<NodeModel>, id: usize, k: nat, up: bool) -> Option<usize>
    decreases k,
{
    if k == 0 {
        Some(id)
    } else {
        match reach(nodes, id, (k - 1) as nat, up) {
            Some(a) => hop(nodes, a, up),
            None => None,
        }
    }
}

/// Whether node `id` satisfies the compound selector `idx` and, through the
/// combinators, all those before it. The combinator between two compounds
/// is the one stored with the first of them: a child asks the parent to
/// satisfy what precedes, a descendant some ancestor, an adjacent sibling
/// the sibling just before, a general sibling some earlier sibling. A node
/// that is not in the document satisfies nothing.
pub open spec fn matches_at(nodes: Seq<NodeModel>, groups: Seq<GroupModel>, id: usize, idx: int) -> bool
    decreases idx, 0nat, 0nat,
{
    if idx < 0 || idx >= groups.len() || id >= nodes.len() {
        false
    } else if !compound_matches(nodes[id as int], groups[idx].0) {
        false
    } else if idx == 0 {
        true
    } else {
        match groups[idx - 1].1 {
            None => true,
            Some(Combinator::Child) => related_at(nodes, groups, id, idx - 1, true, 1),
            Some(Combinator::Adjacent) => related_at(nodes, groups, id, idx - 1, false, 1),
            Some(Combinator::Descendant) => related_within(
                nodes,
                groups,
                id,
                idx - 1,
                true,
                nodes.len(),
            ),
            Some(Combinator::Sibling) => related_within(
                nodes,
                groups,
                id,
                idx - 1,
                false,
                nodes.len(),
            ),
        }
    }
}

/// Whether the node `k` steps from `id` exists and satisfies the compound
/// selector `idx` and all those before it.
pub open spec fn related_at(
    nodes: Seq<NodeModel>,
    groups: Seq<GroupModel>,
    id: usize,
    idx: int,
    up: bool,
    k: nat,
) -> bool
    decreases idx, 1nat, 0nat,
{
    match reach(nodes, id, k, up) {
        Some(a) => idx >= 0 && matches_at(nodes, groups, a, idx),
        None => false,
    }
}

/// Whether one of the nodes from one to `k` steps from `id` satisfies the
/// compound selector `idx` and all those before it. With `k` the number of
/// nodes of the document, these are all the nodes that the links lead to.
pub open spec fn related_within(
    nodes: Seq<NodeModel>,
    groups: Seq<GroupModel>,
    id: usize,
    idx: int,
    up: bool,
    k: nat,
) -> bool
    decreases idx, 2nat, k,
{
    if k == 0 {
        false
    } else {
        related_within(nodes, groups, id, idx, up, (k - 1) as nat) || related_at(
            nodes,
            groups,
            id,
            idx,
            up,
            k,
        )
    }
}

/// Whether a selector matches node `id`: its last compound is the one that
/// the node itself has to satisfy.
pub open spec fn selector_matches(nodes: Seq<NodeModel>, groups: Seq<GroupModel>, id: usize) -> bool {
    matches_at(nodes, groups, id, groups.len() - 1)
}

/// A node within `k` steps is one of those that `related_within` speaks
/// of, and each of those is such a node.
pub proof fn lemma_related_within(
    nodes: Seq<NodeModel>,
    groups: Seq<GroupModel>,
    id: usize,
    idx: int,
    up: bool,
    k: nat,
)
    ensures
        related_within(nodes, groups, id, idx, up, k) <==> exists|j: nat|
            1 <= j <= k && #[trigger] related_at(nodes, groups, id, idx, up, j),
    decreases k,
{
    if k > 0 {
        lemma_related_within(nodes, groups, id, idx, up, (k - 1) as nat);
        if related_within(nodes, groups, id, idx, up, k) {
            if related_at(nodes, groups, id, idx, up, k) {
                assert(1 <= k <= k && related_at(nodes, groups, id, idx, up, k));
            } else {
                let j = choose|j: nat|
                    1 <= j <= k - 1 && #[trigger] related_at(nodes, groups, id, idx, up, j);
                assert(1 <= j <= k && related_at(nodes, groups, id, idx, up, j));
            }
        }
        if exists|j: nat| 1 <= j <= k && #[trigger] related_at(nodes, groups, id, idx, up, j) {
            let j = choose|j: nat| 1 <= j <= k && #[trigger] related_at(nodes, groups, id, idx, up, j);
            if j < k {
                assert(1 <= j <= k - 1 && related_at(nodes, groups, id, idx, up, j));
            }
        }
    }
}

/// Where the links end, they end for good.
pub proof fn lemma_reach_ends(nodes: Seq<NodeModel>, id: usize, k: nat, later: nat, up: bool)
    requires
        reach(nodes, id, k, up) is None,
        k <= later,
    ensures
        reach(nodes, id, later, up) is None,
    decreases later,
{
    if later > k {
        lemma_reach_ends(nodes, id, k, (later - 1) as nat, up);
    }
}

fn value_test(op: &AttributeOp, a: &str, v: &str) -> (r: bool)
    ensures
        r == value_matches(*op, a@, v@),
{
    match op {
        AttributeOp::Exact => str_eq(a, v),
        AttributeOp::Contains => word_listed(a, v),
        AttributeOp::StartsWith => {
            if str_eq(a, v) {
                true
            } else {
                let mut with_hyphen = to_chars(v);
                with_hyphen.push('-');
                starts_with(&to_chars(a), &with_hyphen)
            }
        },
        AttributeOp::Prefix => starts_with(&to_chars(a), &to_chars(v)),
        AttributeOp::Suffix => ends_with(&to_chars(a), &to_chars(v)),
        AttributeOp::Substring => contains(&to_chars(a), &to_chars(v)),
    }
}

impl Selector {
    /// Whether the node satisfies one simple selector.
    pub fn node_matches_part(node: &Node, part: &SelectorPart) -> (r: bool)
        ensures
            r == part_matches(node@, part@),
    {
        match part {
            SelectorPart::Universal => true,
            SelectorPart::Type(tag) => node.has_tag(tag.as_str()),
            SelectorPart::Id(id) => node.attribute_is("id", id.as_str()),
            SelectorPart::Class(class) => match node.attributes() {
                Some(a) => a.has_class(class.as_str()),
                None => false,
            },
            SelectorPart::Attribute { name, op, value } => match node.get_attribute(name.as_str()) {
                None => false,
                Some(a) => match op {
                    None => true,
                    Some(o) => match value {
                        Some(v) => value_test(o, a, v.as_str()),
                        None => false,
                    },
                },
            },
            SelectorPart::PseudoClass(_) => false,
            SelectorPart::PseudoElement(_) => false,
        }
    }

    /// Whether the node satisfies every simple selector of the list.
    pub fn node_matches_parts(node: &Node, parts: &Vec<SelectorPart>) -> (r: bool)
        ensures
            r == compound_matches(node@, parts_model(parts@)),
    {
        let mut i: usize = 0;
        while i < parts.len()
            invariant
                i <= parts.len(),
                forall|k: int| 0 <= k < i ==> part_matches(node@, #[trigger] parts_model(parts@)[k]),
            decreases parts.len() - i,
        {
            if !Self::node_matches_part(node, &parts[i]) {
                assert(!part_matches(node@, parts_model(parts@)[i as int]));
                return false;
            }
            i += 1;
        }
        true
    }

    /// Whether a node within reach of `id`, by steps up or back, satisfies
    /// the compound selector `idx` and those before it: any such node where
    /// `many`, else the one a single step away.
    fn related(&self, doc: &Document, id: usize, idx: usize, up: bool, many: bool) -> (r: bool)
        requires
            idx + 1 < self.parts.len(),
        ensures
            many ==> r == related_within(
                doc@.nodes,
                self.groups(),
                id,
                idx as int,
                up,
                doc@.nodes.len(),
            ),
            !many ==> r == related_at(doc@.nodes, self.groups(), id, idx as int, up, 1),
        decreases idx, 1nat,
    {
        let n = doc.node_count();
        let ghost nodes = doc@.nodes;
        let ghost groups = self.groups();
        let mut current: Option<usize> = Some(id);
        let mut k: usize = 0;
        proof {
            lemma_related_within(nodes, groups, id, idx as int, up, n as nat);
        }
        while k < n
            invariant
                k <= n == nodes.len(),
                nodes == doc@.nodes,
                groups == self.groups(),
                idx + 1 < self.parts.len(),
                current == reach(nodes, id, k as nat, up),
                related_within(nodes, groups, id, idx as int, up, n as nat) <==> exists|j: nat|
                    1 <= j <= n && #[trigger] related_at(nodes, groups, id, idx as int, up, j),
                forall|j: nat| 1 <= j <= k ==> !#[trigger] related_at(nodes, groups, id, idx as int, up, j),
                !many ==> k == 0,
            decreases n - k,
        {
            let here = match current {
                Some(c) => c,
                None => {
                    proof {
                        assert forall|j: nat| 1 <= j <= n implies !#[trigger] related_at(
                            nodes,
                            groups,
                            id,
                            idx as int,
                            up,
                            j,
                        ) by {
                            if j > k {
                                lemma_reach_ends(nodes, id, k as nat, j, up);
                            }
                        }
                        if k == 0 {
                            assert(false);
                        }
                    }
                    return false;
                },
            };
            let next: Option<usize> = match doc.get_node(NodeId(here)) {
                Some(node) => {
                    let link = if up {
                        node.parent
                    } else {
                        node.prev_sibling
                    };
                    match link {
                        Some(l) => Some(l.0),
                        None => None,
                    }
                },
                None => None,
            };
            assert(next == hop(nodes, here, up));
            assert(next == reach(nodes, id, (k + 1) as nat, up));
            let hit = match next {
                Some(a) => self.matches_with_context(doc, NodeId(a), idx),
                None => false,
            };
            assert(hit == related_at(nodes, groups, id, idx as int, up, (k + 1) as nat));
            if hit {
                assert(1 <= (k + 1) as nat <= n);
                return true;
            }
            if !many {
                return false;
            }
            current = next;
            k += 1;
        }
        false
    }

    /// Whether the node satisfies the compound selector `part_index` and,
    /// through the combinators, all those before it.
    pub fn matches_with_context(&self, doc: &Document, node_id: NodeId, part_index: usize) -> (r:
        bool)
        ensures
            r == matches_at(doc@.nodes, self.groups(), node_id.0, part_index as int),
        decreases part_index, 0nat,
    {
        if part_index >= self.parts.len() {
            return false;
        }
        let node = match doc.get_node(node_id) {
            Some(n) => n,
            None => {
                return false;
            },
        };
        if !Self::node_matches_parts(node, &self.parts[part_index].0) {
            return false;
        }
        if part_index == 0 {
            return true;
        }
        assert(self.groups()[part_index - 1].1 == self.parts@[part_index - 1].1);
        assert(self.groups()[part_index as int].0 == parts_model(self.parts@[part_index as int].0@));
        match self.parts[part_index - 1].1 {
            None => true,
            Some(Combinator::Child) => self.related(doc, node_id.0, part_index - 1, true, false),
            Some(Combinator::Adjacent) => self.related(doc, node_id.0, part_index - 1, false, false),
            Some(Combinator::Descendant) => self.related(doc, node_id.0, part_index - 1, true, true),
            Some(Combinator::Sibling) => self.related(doc, node_id.0, part_index - 1, false, true),
        }
    }

    /// Whether the selector matches the node.
    pub fn matches(&self, doc: &Document, node_id: NodeId) -> (r: bool)
        ensures
            r == selector_matches(doc@.nodes, self.groups(), node_id.0),
    {
        if self.parts.len() == 0 {
            return false;
        }
        self.matches_with_context(doc, node_id, self.parts.len() - 1)
    }
}

} // verus!

use vstd::prelude::*;

use crate::dom_tree::ElementType;
use crate::parser::{
    digit_pred, is_ascii_digit, is_ascii_letter, is_digit, is_letter, is_space, is_whitespace,
    lemma_run_end, letter_pred, run_len, str_eq, trim, trim_spec, Parser,
};

verus! {

/// A stylesheet: the rules to apply to the DOM.
pub struct StyleSheet {
    pub ruleset: Rule,
}

/// The declarations of a stylesheet, gathered by selector. Each selector
/// has at most one entry; a later rule for a selector adds its declarations
/// to the end of that entry.
pub struct Rule {
    rule_map: Vec<(Selector, Vec<Declaration>)>,
}

/// A selector names the elements to which a rule applies. Only type
/// selectors are supported: they match elements by their type.
#[derive(Debug, Clone, Copy, PartialEq, Eq, Hash, Structural)]
pub enum Selector {
    SelectorType(ElementType),
}

/// A property together with the value that a rule gives it.
#[derive(Debug, Clone, Copy, PartialEq, Eq, Structural)]
pub struct Declaration {
    pub property_name: Property,
    pub property_value: Value,
}

/// The supported properties.
#[derive(Debug, Clone, Copy, PartialEq, Eq, Structural)]
pub enum Property {
    FontSize,
    LineHeight,
    Color,
    Display,
    MarginTop,
    MarginBottom,
    MarginLeft,
    MarginRight,
    PaddingTop,
    PaddingBottom,
    PaddingLeft,
    PaddingRight,
    BorderTopHeight,
    BorderBottomHeight,
    BorderLeftHeight,
    BorderRightHeight,
}

/// The supported values.
#[derive(Debug, Clone, Copy, PartialEq, Eq, Structural)]
pub enum Value {
    Size(u32, Unit),
    ColorValue(Color),
    Block(BlockType),
    Missing,
}

/// How a node takes part in layout.
#[derive(Debug, Clone, Copy, PartialEq, Eq, Structural)]
pub enum BlockType {
    Inline,
    Block,
    NoBox,
}

/// Units of length.
#[derive(Debug, Clone, Copy, PartialEq, Eq, Structural)]
pub enum Unit {
    Px,
    Em,
}

/// A colour with an alpha channel.
#[derive(Debug, Clone, Copy, PartialEq, Eq, Structural)]
pub struct Color {
    pub red: u8,
    pub green: u8,
    pub blue: u8,
    pub alpha: u8,
}

/// The declarations of the first entry of `entries` for `s`.
pub open spec fn find_rule(entries: Seq<(Selector, Vec<Declaration>)>, s: Selector) -> Option<
    Seq<Declaration>,
>
    decreases entries.len(),
{
    if entries.len() == 0 {
        None
    } else if entries[0].0 == s {
        Some(entries[0].1@)
    } else {
        find_rule(entries.drop_first(), s)
    }
}

/// The declarations behind an optional reference.
pub open spec fn decls_view(d: Option<&Vec<Declaration>>) -> Option<Seq<Declaration>> {
    match d {
        Some(v) => Some(v@),
        None => None,
    }
}

/// `find_rule` finds the first entry with the selector, and nothing where
/// no entry has it.
pub proof fn lemma_find_rule(entries: Seq<(Selector, Vec<Declaration>)>, s: Selector, i: int)
    requires
        first_at(entries, s, i),
    ensures
        i < entries.len() ==> find_rule(entries, s) == Some(entries[i].1@),
        i == entries.len() ==> find_rule(entries, s) is None,
    decreases entries.len(),
{
    if entries.len() > 0 && i > 0 {
        let rest = entries.drop_first();
        assert(entries[0].0 != s);
        assert forall|j: int| 0 <= j < i - 1 implies (#[trigger] rest[j]).0 != s by {
            assert(rest[j] == entries[j + 1]);
        }
        lemma_find_rule(rest, s, i - 1);
    }
}

/// Replacing an entry by one with the same selector leaves what the other
/// selectors find.
pub proof fn lemma_find_rule_update(
    e: Seq<(Selector, Vec<Declaration>)>,
    i: int,
    x: (Selector, Vec<Declaration>),
    s: Selector,
)
    requires
        0 <= i < e.len(),
        x.0 == e[i].0,
        s != x.0,
    ensures
        find_rule(e.update(i, x), s) == find_rule(e, s),
    decreases e.len(),
{
    let e2 = e.update(i, x);
    if e[0].0 != s {
        if i == 0 {
            assert(e2.drop_first() =~= e.drop_first());
        } else {
            assert(e2.drop_first() =~= e.drop_first().update(i - 1, x));
            lemma_find_rule_update(e.drop_first(), i - 1, x, s);
        }
    }
}

/// Adding an entry at the end leaves what the other selectors find.
pub proof fn lemma_find_rule_push(
    e: Seq<(Selector, Vec<Declaration>)>,
    x: (Selector, Vec<Declaration>),
    s: Selector,
)
    requires
        s != x.0,
    ensures
        find_rule(e.push(x), s) == find_rule(e, s),
    decreases e.len(),
{
    let e2 = e.push(x);
    if e.len() == 0 {
        assert(e2[0] == x);
        assert(e2.drop_first() =~= Seq::<(Selector, Vec<Declaration>)>::empty());
        assert(find_rule(e2.drop_first(), s) is None);
    } else if e[0].0 == s {
        assert(e2[0] == e[0]);
    } else {
        assert(e2[0] == e[0]);
        assert(e2.drop_first() =~= e.drop_first().push(x));
        lemma_find_rule_push(e.drop_first(), x, s);
    }
}

/// Where the first entry for `sel` sits at `i`, or no entry has it.
pub open spec fn first_at(entries: Seq<(Selector, Vec<Declaration>)>, sel: Selector, i: int) -> bool {
    &&& 0 <= i <= entries.len()
    &&& forall|j: int| 0 <= j < i ==> (#[trigger] entries[j]).0 != sel
    &&& i < entries.len() ==> entries[i].0 == sel
}

impl Rule {
    /// The entries, in the order their selectors first appeared.
    pub closed spec fn entries(&self) -> Seq<(Selector, Vec<Declaration>)> {
        self.rule_map@
    }

    /// The declarations that the rules give to `s`, if any rule names it.
    pub open spec fn lookup(&self, s: Selector) -> Option<Seq<Declaration>> {
        find_rule(self.entries(), s)
    }

    /// No rules.
    pub fn new() -> (r: Rule)
        ensures
            forall|s: Selector| #[trigger] r.lookup(s) is None,
    {
        Rule { rule_map: Vec::new() }
    }

    /// The declarations for `sel`, if some rule names it.
    pub fn get(&self, sel: &Selector) -> (r: Option<&Vec<Declaration>>)
        ensures
            decls_view(r) == self.lookup(*sel),
    {
        let i = self.position(sel);
        if i < self.rule_map.len() {
            Some(&self.rule_map[i].1)
        } else {
            None
        }
    }

    /// Whether some rule names `sel`.
    pub fn contains_key(&self, sel: &Selector) -> (r: bool)
        ensures
            r == self.lookup(*sel) is Some,
    {
        let i = self.position(sel);
        i < self.rule_map.len()
    }

    /// Whether no rule names any selector.
    pub fn is_empty(&self) -> (r: bool)
        ensures
            r == forall|s: Selector| #[trigger] self.lookup(s) is None,
    {
        proof {
            if self.entries().len() > 0 {
                let s = self.entries()[0].0;
                assert(self.lookup(s) is Some);
            }
        }
        self.rule_map.len() == 0
    }

    /// Index of the first entry for `sel`, or the number of entries if none has it.
    fn position(&self, sel: &Selector) -> (i: usize)
        ensures
            first_at(self.entries(), *sel, i as int),
            i < self.entries().len() ==> self.lookup(*sel) == Some(self.entries()[i as int].1@),
            i == self.entries().len() ==> self.lookup(*sel) is None,
    {
        let n = self.rule_map.len();
        let mut i: usize = 0;
        while i < n
            invariant
                n == self.entries().len(),
                i <= n,
                forall|j: int| 0 <= j < i ==> (#[trigger] self.entries()[j]).0 != *sel,
            decreases n - i,
        {
            if self.rule_map[i].0 == *sel {
                proof {
                    lemma_find_rule(self.entries(), *sel, i as int);
                }
                return i;
            }
            i = i + 1;
        }
        proof {
            lemma_find_rule(self.entries(), *sel, i as int);
        }
        i
    }

    /// Adds `decls` at the end of the declarations for `sel`, making an
    /// entry for `sel` if there is none.
    pub fn append_declarations(&mut self, sel: Selector, decls: Vec<Declaration>)
        ensures
            final(self).lookup(sel) == Some(
                match old(self).lookup(sel) {
                    Some(d) => d + decls@,
                    None => decls@,
                },
            ),
            forall|s: Selector| s != sel ==> #[trigger] final(self).lookup(s) == old(self).lookup(s),
    {
        let ghost e = self.entries();
        let i = self.position(&sel);
        if i < self.rule_map.len() {
            let mut decls = decls;
            let mut entry = self.rule_map.remove(i);
            entry.1.append(&mut decls);
            self.rule_map.insert(i, entry);
            proof {
                let e2 = self.entries();
                assert(e2 =~= e.update(i as int, e2[i as int]));
                assert(first_at(e2, sel, i as int));
                lemma_find_rule(e2, sel, i as int);
                assert forall|s: Selector| s != sel implies #[trigger] find_rule(e2, s) == find_rule(
                    e,
                    s,
                ) by {
                    lemma_find_rule_update(e, i as int, e2[i as int], s);
                }
            }
        } else {
            self.rule_map.push((sel, decls));
            proof {
                let e2 = self.entries();
                assert(e2 =~= e.push((sel, decls)));
                assert(e2[e.len() as int] == (sel, decls));
                assert(first_at(e2, sel, e.len() as int));
                lemma_find_rule(e2, sel, e.len() as int);
                assert forall|s: Selector| s != sel implies #[trigger] find_rule(e2, s) == find_rule(
                    e,
                    s,
                ) by {
                    lemma_find_rule_push(e, (sel, decls), s);
                }
            }
        }
    }
}

/// The property that a name stands for, once trimmed.
pub open spec fn property_of(s: Seq<char>) -> Option<Property> {
    let t = trim_spec(s);
    if t == "font-size"@ {
        Some(Property::FontSize)
    } else if t == "line-height"@ {
        Some(Property::LineHeight)
    } else if t == "color"@ {
        Some(Property::Color)
    } else if t == "display"@ {
        Some(Property::Display)
    } else if t == "margin-top"@ {
        Some(Property::MarginTop)
    } else if t == "margin-bottom"@ {
        Some(Property::MarginBottom)
    } else if t == "margin-left"@ {
        Some(Property::MarginLeft)
    } else if t == "margin-right"@ {
        Some(Property::MarginRight)
    } else if t == "padding-top"@ {
        Some(Property::PaddingTop)
    } else if t == "padding-bottom"@ {
        Some(Property::PaddingBottom)
    } else if t == "padding-left"@ {
        Some(Property::PaddingLeft)
    } else if t == "padding-right"@ {
        Some(Property::PaddingRight)
    } else if t == "border-top-height"@ {
        Some(Property::BorderTopHeight)
    } else if t == "border-bottom-height"@ {
        Some(Property::BorderBottomHeight)
    } else if t == "border-left-height"@ {
        Some(Property::BorderLeftHeight)
    } else if t == "border-right-height"@ {
        Some(Property::BorderRightHeight)
    } else {
        None
    }
}

/// Take a string and match it to a property; `None` if there is no match.
pub fn string_to_property(string: &str) -> (r: Option<Property>)
    ensures
        r == property_of(string@),
{
    let t = trim(string);
    if str_eq(t, "font-size") {
        Some(Property::FontSize)
    } else if str_eq(t, "line-height") {
        Some(Property::LineHeight)
    } else if str_eq(t, "color") {
        Some(Property::Color)
    } else if str_eq(t, "display") {
        Some(Property::Display)
    } else if str_eq(t, "margin-top") {
        Some(Property::MarginTop)
    } else if str_eq(t, "margin-bottom") {
        Some(Property::MarginBottom)
    } else if str_eq(t, "margin-left") {
        Some(Property::MarginLeft)
    } else if str_eq(t, "margin-right") {
        Some(Property::MarginRight)
    } else if str_eq(t, "padding-top") {
        Some(Property::PaddingTop)
    } else if str_eq(t, "padding-bottom") {
        Some(Property::PaddingBottom)
    } else if str_eq(t, "padding-left") {
        Some(Property::PaddingLeft)
    } else if str_eq(t, "padding-right") {
        Some(Property::PaddingRight)
    } else if str_eq(t, "border-top-height") {
        Some(Property::BorderTopHeight)
    } else if str_eq(t, "border-bottom-height") {
        Some(Property::BorderBottomHeight)
    } else if str_eq(t, "border-left-height") {
        Some(Property::BorderLeftHeight)
    } else if str_eq(t, "border-right-height") {
        Some(Property::BorderRightHeight)
    } else {
        None
    }
}

/// The number that a digit stands for.
pub open spec fn digit_val(c: char) -> nat {
    if is_digit(c) {
        (c as u32 - '0' as u32) as nat
    } else {
        0
    }
}

/// The number that a run of decimal digits stands for.
pub open spec fn digits_value(s: Seq<char>) -> nat
    decreases s.len(),
{
    if s.len() == 0 {
        0
    } else {
        digits_value(s.drop_last()) * 10 + digit_val(s.last())
    }
}

/// The unit named by the two characters after a number; pixels by default.
pub open spec fn unit_of(a: char, b: char) -> Unit {
    if a == 'p' && b == 'x' {
        Unit::Px
    } else if a == 'e' && b == 'm' {
        Unit::Em
    } else {
        Unit::Px
    }
}

/// The value of a text that starts with a digit: the number its digits stand
/// for, in the unit of the two characters that follow them. Without two such
/// characters, or where the number does not fit in `u32`, it is missing.
pub open spec fn size_value(t: Seq<char>) -> Value {
    let n = run_len(t, digit_pred()) as int;
    let num = digits_value(t.subrange(0, n));
    if t.len() >= n + 2 && num <= u32::MAX {
        Value::Size(num as u32, unit_of(t[n], t[n + 1]))
    } else {
        Value::Missing
    }
}

/// The value of a text that starts with a letter: its leading word, if that
/// is a known keyword.
pub open spec fn keyword_value(t: Seq<char>) -> Value {
    let w = t.subrange(0, run_len(t, letter_pred()) as int);
    if w == "block"@ {
        Value::Block(BlockType::Block)
    } else if w == "inline"@ {
        Value::Block(BlockType::Inline)
    } else {
        Value::Missing
    }
}

/// The value that a text stands for, once trimmed.
pub open spec fn value_of(s: Seq<char>) -> Value {
    let t = trim_spec(s);
    if t.len() == 0 || is_space(t[0]) {
        Value::Missing
    } else if is_digit(t[0]) {
        size_value(t)
    } else if is_letter(t[0]) {
        keyword_value(t)
    } else {
        Value::Missing
    }
}

/// A prefix of a run of digits stands for no more than the whole run.
pub proof fn lemma_digits_prefix(s: Seq<char>, k: int)
    requires
        0 <= k <= s.len(),
    ensures
        digits_value(s.subrange(0, k)) <= digits_value(s),
    decreases s.len(),
{
    if k == s.len() {
        assert(s.subrange(0, k) =~= s);
    } else {
        lemma_digits_prefix(s.drop_last(), k);
        assert(s.drop_last().subrange(0, k) =~= s.subrange(0, k));
    }
}

/// Reads a run of decimal digits as a `u32`; `None` where it does not fit.
fn digits_to_u32(s: &str) -> (r: Option<u32>)
    requires
        forall|i: int| 0 <= i < s@.len() ==> is_digit(#[trigger] s@[i]),
    ensures
        r == (if digits_value(s@) <= u32::MAX {
            Some(digits_value(s@) as u32)
        } else {
            None
        }),
{
    let n = s.unicode_len();
    let mut acc: u64 = 0;
    let mut i: usize = 0;
    while i < n
        invariant
            i <= n,
            n == s@.len(),
            forall|j: int| 0 <= j < s@.len() ==> is_digit(#[trigger] s@[j]),
            acc == digits_value(s@.subrange(0, i as int)),
            acc <= u32::MAX,
        decreases n - i,
    {
        let c = s.get_char(i);
        assert(is_digit(s@[i as int]));
        let d = (c as u32 - '0' as u32) as u64;
        let next = acc * 10 + d;
        assert(s@.subrange(0, i + 1).drop_last() =~= s@.subrange(0, i as int));
        assert(next == digits_value(s@.subrange(0, i + 1)));
        if next > u32::MAX as u64 {
            proof {
                lemma_digits_prefix(s@, i + 1);
            }
            return None;
        }
        acc = next;
        i = i + 1;
    }
    assert(s@.subrange(0, n as int) =~= s@);
    Some(acc as u32)
}

/// Read a keyword value at the cursor.
fn parse_alpha(parse: &mut Parser) -> (r: Value)
    requires
        old(parse).wf(),
    ensures
        r == keyword_value(old(parse).text().subrange(old(parse).pos(), old(parse).text().len() as int)),
{
    let ghost t = parse.text();
    let ghost p = parse.pos();
    let val = parse.consume_while(|c: char| -> (r: bool) ensures r == is_letter(c) { is_ascii_letter(c) });
    proof {
        let rest = t.subrange(p, t.len() as int);
        lemma_run_end(t, p, parse.pos(), letter_pred());
        assert(rest.subrange(0, run_len(rest, letter_pred()) as int) =~= val@);
    }
    if str_eq(val.as_str(), "block") {
        Value::Block(BlockType::Block)
    } else if str_eq(val.as_str(), "inline") {
        Value::Block(BlockType::Inline)
    } else {
        Value::Missing
    }
}

/// Read a size value at the cursor.
fn parse_size_units(parse: &mut Parser) -> (r: Value)
    requires
        old(parse).wf(),
    ensures
        r == size_value(old(parse).text().subrange(old(parse).pos(), old(parse).text().len() as int)),
{
    let ghost t = parse.text();
    let ghost p = parse.pos();
    let num = parse.consume_while(|c: char| -> (r: bool) ensures r == is_digit(c) { is_ascii_digit(c) });
    let ghost q = parse.pos();
    proof {
        let rest = t.subrange(p, t.len() as int);
        lemma_run_end(t, p, q, digit_pred());
        assert(rest.subrange(0, q - p) =~= num@);
    }
    let cur_char = parse.peek_char();
    let next_char = parse.peek_next_char();
    match (cur_char, next_char) {
        (Some(a), Some(b)) => {
            let unit = if a == 'p' && b == 'x' {
                Unit::Px
            } else if a == 'e' && b == 'm' {
                Unit::Em
            } else {
                Unit::Px
            };
            match digits_to_u32(num.as_str()) {
                Some(n) => Value::Size(n, unit),
                None => Value::Missing,
            }
        },
        _ => Value::Missing,
    }
}

/// Take a string and match it to a value; `Value::Missing` if there is no match.
pub fn string_to_value(string: &str) -> (r: Value)
    ensures
        r == value_of(string@),
{
    let input = String::from_str(trim(string));
    let mut parse = Parser::new(input);
    match parse.peek_char() {
        None => Value::Missing,
        Some(c) => {
            if is_whitespace(c) {
                Value::Missing
            } else if is_ascii_digit(c) {
                proof {
                    assert(parse.text().subrange(0, parse.text().len() as int) =~= parse.text());
                }
                parse_size_units(&mut parse)
            } else if is_ascii_letter(c) {
                proof {
                    assert(parse.text().subrange(0, parse.text().len() as int) =~= parse.text());
                }
                parse_alpha(&mut parse)
            } else {
                Value::Missing
            }
        },
    }
}

/// The amount that the first declaration of `prop` gives, where that is a
/// size; zero where there is none or it is not a size.
pub open spec fn box_value(decls: Seq<Declaration>, prop: Property) -> u32
    decreases decls.len(),
{
    if decls.len() == 0 {
        0
    } else if decls[0].property_name == prop {
        match decls[0].property_value {
            Value::Size(n, _) => n,
            _ => 0,
        }
    } else {
        box_value(decls.drop_first(), prop)
    }
}

/// The amount that the first declaration of `prop` in `decl` gives.
pub fn box_value_from_declaration(decl: &Vec<Declaration>, prop: Property) -> (r: u32)
    ensures
        r == box_value(decl@, prop),
{
    let n = decl.len();
    let mut i: usize = 0;
    assert(decl@.subrange(0, n as int) =~= decl@);
    while i < n
        invariant
            i <= n,
            n == decl@.len(),
            box_value(decl@, prop) == box_value(decl@.subrange(i as int, n as int), prop),
        decreases n - i,
    {
        assert(decl@.subrange(i as int, n as int).drop_first() =~= decl@.subrange(i + 1, n as int));
        if decl[i].property_name == prop {
            return match decl[i].property_value {
                Value::Size(num, _) => num,
                _ => 0,
            };
        }
        i = i + 1;
    }
    0
}

} // verus!

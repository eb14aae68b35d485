use vstd::prelude::*;

use super::stylesheet::{
    property_of, string_to_property, string_to_value, value_of, Declaration, Rule, Selector,
    StyleSheet, Value,
};
use crate::dom_tree::ElementType;
use crate::parser::{
    lemma_run_end, lemma_run_end_bounds, run_end, skip_past, space_pred, str_eq, trim_end,
    trim_end_spec, Parser,
};

verus! {

/// Characters other than `{`.
pub open spec fn selector_pred() -> spec_fn(char) -> bool {
    |c: char| c != '{'
}

/// Characters of a property name: neither `:` nor the `;` or `}` that
/// ends a pair.
pub open spec fn name_pred() -> spec_fn(char) -> bool {
    |c: char| c != ':' && c != ';' && c != '}'
}

/// Characters other than `}`.
pub open spec fn close_pred() -> spec_fn(char) -> bool {
    |c: char| c != '}'
}

/// Characters other than `;` and `}`.
pub open spec fn value_pred() -> spec_fn(char) -> bool {
    |c: char| c != ';' && c != '}'
}

/// The selector that a trimmed token names. The heading tags all select
/// the `Head` type.
pub open spec fn selector_of(tok: Seq<char>) -> Option<Selector> {
    if tok == "title"@ {
        Some(Selector::SelectorType(ElementType::Title))
    } else if tok == "body"@ {
        Some(Selector::SelectorType(ElementType::Body))
    } else if tok == "h1"@ || tok == "h2"@ || tok == "h3"@ || tok == "h4"@ {
        Some(Selector::SelectorType(ElementType::Head))
    } else {
        None
    }
}

/// Where the selector text that starts at `p` ends: after leading
/// whitespace, at the next `{` or the end.
pub open spec fn selector_end(t: Seq<char>, p: int) -> int {
    run_end(t, run_end(t, p, space_pred()), selector_pred())
}

/// The selector named by the text at `p`.
pub open spec fn selector_at(t: Seq<char>, p: int) -> Option<Selector> {
    selector_of(trim_end_spec(t.subrange(run_end(t, p, space_pred()), selector_end(t, p))))
}

/// The declaration that a name and a value give, if the name is a known
/// property and the value is not missing.
pub open spec fn pair_decls(name: Seq<char>, value: Seq<char>) -> Seq<Declaration> {
    match property_of(name) {
        Some(property) => if value_of(value) != Value::Missing {
            seq![Declaration { property_name: property, property_value: value_of(value) }]
        } else {
            Seq::empty()
        },
        None => Seq::empty(),
    }
}

/// Where the body of the block at `p` starts: past leading whitespace and
/// the block's `{`.
pub open spec fn body_start(t: Seq<char>, p: int) -> int {
    let q = run_end(t, p, space_pred());
    if q < t.len() && t[q] == '{' {
        q + 1
    } else {
        q
    }
}

/// Where the block at `p` ends: past the first `}` of its body, or at the
/// end of the text.
pub open spec fn block_end(t: Seq<char>, p: int) -> int {
    skip_past(t, body_start(t, p), close_pred())
}

/// Where the name of the pair at `a` ends.
pub open spec fn name_end(t: Seq<char>, a: int) -> int {
    run_end(t, a, name_pred())
}

/// The name of the pair at `a` is followed by `:` and a value.
pub open spec fn has_value(t: Seq<char>, a: int) -> bool {
    name_end(t, a) < t.len() && t[name_end(t, a)] == ':'
}

/// Where the pair at `a` ends: at the `;` or `}` after it, or at the end.
pub open spec fn pair_end(t: Seq<char>, a: int) -> int {
    if has_value(t, a) {
        run_end(t, name_end(t, a) + 1, value_pred())
    } else {
        name_end(t, a)
    }
}

/// The declaration of the pair at `a`: its text up to the first `:` is the
/// name, the rest the value. A pair without `:` gives none.
pub open spec fn pair_decl(t: Seq<char>, a: int) -> Seq<Declaration> {
    if has_value(t, a) {
        pair_decls(t.subrange(a, name_end(t, a)), t.subrange(name_end(t, a) + 1, pair_end(t, a)))
    } else {
        Seq::empty()
    }
}

/// The declarations of the pairs from `a` to the end of the block, which
/// are separated by `;`; and where the block ends, past its `}`.
pub open spec fn block_pairs(t: Seq<char>, a: int) -> (Seq<Declaration>, int)
    decreases t.len() - a,
    via block_pairs_decreases
{
    if a < 0 || a > t.len() {
        (Seq::empty(), a)
    } else {
        let e = pair_end(t, a);
        if e < t.len() && t[e] == ';' {
            let rest = block_pairs(t, e + 1);
            (pair_decl(t, a) + rest.0, rest.1)
        } else if e < t.len() {
            (pair_decl(t, a), e + 1)
        } else {
            (pair_decl(t, a), e)
        }
    }
}

/// A pair lies within the text, and no `}` comes before its end, where
/// the text ends or a `;` or `}` stands.
pub proof fn lemma_pair_bounds(t: Seq<char>, a: int)
    requires
        0 <= a <= t.len(),
    ensures
        a <= pair_end(t, a) <= t.len(),
        forall|i: int| a <= i < pair_end(t, a) ==> t[i] != '}',
        pair_end(t, a) < t.len() ==> t[pair_end(t, a)] == ';' || t[pair_end(t, a)] == '}',
{
    lemma_run_end_bounds(t, a, name_pred());
    let n = name_end(t, a);
    if has_value(t, a) {
        lemma_run_end_bounds(t, n + 1, value_pred());
        assert forall|i: int| a <= i < pair_end(t, a) implies t[i] != '}' by {
            if i < n {
                assert(name_pred()(t[i]));
            } else if i > n {
                assert(value_pred()(t[i]));
            }
        }
    } else {
        assert forall|i: int| a <= i < pair_end(t, a) implies t[i] != '}' by {
            assert(name_pred()(t[i]));
        }
    }
}

#[via_fn]
proof fn block_pairs_decreases(t: Seq<char>, a: int) {
    if 0 <= a <= t.len() {
        lemma_pair_bounds(t, a);
    }
}

/// Reading the pairs ends past the first `}`, or at the end of the text.
pub proof fn lemma_block_pairs_end(t: Seq<char>, a: int)
    requires
        0 <= a <= t.len(),
    ensures
        block_pairs(t, a).1 == skip_past(t, a, close_pred()),
    decreases t.len() - a,
{
    lemma_pair_bounds(t, a);
    let e = pair_end(t, a);
    if e < t.len() && t[e] == ';' {
        lemma_block_pairs_end(t, e + 1);
        let r = run_end(t, e + 1, close_pred());
        lemma_run_end_bounds(t, e + 1, close_pred());
        lemma_run_end(t, a, r, close_pred());
    } else {
        lemma_run_end(t, a, e, close_pred());
    }
}

/// The declarations of the block at `p`, and where it ends.
pub open spec fn decl_block(t: Seq<char>, p: int) -> (Seq<Declaration>, int) {
    block_pairs(t, body_start(t, p))
}

/// The block at `p` ends past the first `}` of its body, or at the end.
pub proof fn lemma_decl_block_end(t: Seq<char>, p: int)
    requires
        0 <= p <= t.len(),
    ensures
        decl_block(t, p).1 == block_end(t, p),
        body_start(t, p) <= block_end(t, p) <= t.len(),
        p <= body_start(t, p),
{
    lemma_run_end_bounds(t, p, space_pred());
    lemma_block_pairs_end(t, body_start(t, p));
    lemma_run_end_bounds(t, body_start(t, p), close_pred());
}

/// The rules read from `p` on, in order: for each, its selector (if it is
/// recognised) and the declarations of its block.
pub open spec fn css_blocks(t: Seq<char>, p: int) -> Seq<(Option<Selector>, Seq<Declaration>)>
    decreases t.len() - p,
    via css_blocks_decreases
{
    if p < 0 || p >= t.len() {
        Seq::empty()
    } else {
        let b = decl_block(t, selector_end(t, p));
        seq![(selector_at(t, p), b.0)] + css_blocks(t, b.1)
    }
}

#[via_fn]
proof fn css_blocks_decreases(t: Seq<char>, p: int) {
    if 0 <= p < t.len() {
        lemma_rule_moves(t, p);
    }
}

/// Reading one rule moves forward by at least one character.
pub proof fn lemma_rule_moves(t: Seq<char>, p: int)
    requires
        0 <= p < t.len(),
    ensures
        p < decl_block(t, selector_end(t, p)).1 <= t.len(),
{
    let q = run_end(t, p, space_pred());
    lemma_run_end_bounds(t, p, space_pred());
    lemma_run_end_bounds(t, q, selector_pred());
    let e = selector_end(t, p);
    lemma_decl_block_end(t, e);
    if e == p {
        assert(t[p] == '{');
        assert(run_end(t, e, space_pred()) == e);
    }
}

/// The declarations that the rules in `blocks` give to `s`: those of every
/// rule for `s`, in order; `None` where no rule is for `s`.
pub open spec fn gather(blocks: Seq<(Option<Selector>, Seq<Declaration>)>, s: Selector) -> Option<
    Seq<Declaration>,
>
    decreases blocks.len(),
{
    if blocks.len() == 0 {
        None
    } else {
        let prev = gather(blocks.drop_last(), s);
        if blocks.last().0 == Some(s) {
            Some(
                match prev {
                    Some(d) => d + blocks.last().1,
                    None => blocks.last().1,
                },
            )
        } else {
            prev
        }
    }
}

pub struct CssParser {
    pub parse: Parser,
}

impl CssParser {
    pub fn new(input: String) -> (r: CssParser)
        ensures
            r.parse.wf(),
            r.parse.text() == input@,
            r.parse.pos() == 0,
    {
        let parser = Parser::new(input);
        CssParser { parse: parser }
    }

    /// Reads a selector: skips whitespace, takes the text up to the next
    /// `{` and matches it, trimmed, against the known selectors.
    pub fn parse_selector(&mut self) -> (r: Option<Selector>)
        requires
            old(self).parse.wf(),
        ensures
            final(self).parse.wf(),
            final(self).parse.text() == old(self).parse.text(),
            final(self).parse.pos() == selector_end(old(self).parse.text(), old(self).parse.pos()),
            r == selector_at(old(self).parse.text(), old(self).parse.pos()),
    {
        let ghost t = self.parse.text();
        let ghost p = self.parse.pos();
        self.parse.consume_whitespace();
        let ghost q = self.parse.pos();
        let selector = self.parse.consume_while(
            |c: char| -> (r: bool) ensures r == (c != '{') { c != '{' },
        );
        proof {
            lemma_run_end(t, q, self.parse.pos(), selector_pred());
        }
        // Drop the whitespace between the name and the `{`.
        let tok = trim_end(selector.as_str());
        if str_eq(tok, "title") {
            Some(Selector::SelectorType(ElementType::Title))
        } else if str_eq(tok, "body") {
            Some(Selector::SelectorType(ElementType::Body))
        } else if str_eq(tok, "h1") || str_eq(tok, "h2") || str_eq(tok, "h3") || str_eq(tok, "h4") {
            Some(Selector::SelectorType(ElementType::Head))
        } else {
            None
        }
    }

    /// Reads a declaration block, from its `{` to its `}`, and returns the
    /// declarations whose names and values are both recognised.
    pub fn parse_declaration(&mut self) -> (r: Vec<Declaration>)
        requires
            old(self).parse.wf(),
        ensures
            final(self).parse.wf(),
            final(self).parse.text() == old(self).parse.text(),
            (r@, final(self).parse.pos()) == decl_block(
                old(self).parse.text(),
                old(self).parse.pos(),
            ),
            final(self).parse.pos() == block_end(old(self).parse.text(), old(self).parse.pos()),
    {
        let ghost t = self.parse.text();
        let ghost p0 = self.parse.pos();
        proof {
            lemma_decl_block_end(t, p0);
        }
        self.parse.consume_whitespace();
        self.parse.consume_if_char_matches('{');
        let mut retval: Vec<Declaration> = Vec::new();
        loop
            invariant_except_break
                decl_block(t, p0) == (
                    retval@ + block_pairs(t, self.parse.pos()).0,
                    block_pairs(t, self.parse.pos()).1,
                ),
            invariant
                self.parse.wf(),
                self.parse.text() == t,
            ensures
                decl_block(t, p0) == (retval@, self.parse.pos()),
            decreases t.len() - self.parse.pos(),
        {
            let ghost a = self.parse.pos();
            proof {
                lemma_pair_bounds(t, a);
            }
            let name = self.parse.consume_while(
                |c: char| -> (r: bool) ensures r == (c != ':' && c != ';' && c != '}') { c != ':' && c != ';' && c != '}' },
            );
            proof {
                lemma_run_end(t, a, self.parse.pos(), name_pred());
            }
            let val = if self.parse.consume_if_char_matches(':') {
                let ghost n = self.parse.pos();
                let v = self.parse.consume_while(
                    |c: char| -> (r: bool) ensures r == (c != ';' && c != '}') { c != ';' && c != '}' },
                );
                proof {
                    lemma_run_end(t, n, self.parse.pos(), value_pred());
                }
                Some(v)
            } else {
                None
            };
            let ghost before = retval@;
            add_declaration_if_valid(&mut retval, &name, &val);
            proof {
                assert(retval@ == before + pair_decl(t, a));
            }
            if !self.parse.consume_if_char_matches(';') {
                // At the block's `}`, or at the end of the text.
                self.parse.consume_char();
                proof {
                    assert(retval@ + Seq::<Declaration>::empty() =~= retval@);
                }
                break;
            }
            proof {
                assert(before + pair_decl(t, a) + block_pairs(t, self.parse.pos()).0 =~= before + (
                pair_decl(t, a) + block_pairs(t, self.parse.pos()).0));
            }
        }
        retval
    }

    /// Reads rules to the end of the text. The declarations of every rule
    /// whose selector is recognised go, in order, to the end of that
    /// selector's entry; a rule with an unknown selector is read and dropped.
    pub fn parse_css(&mut self) -> (r: StyleSheet)
        requires
            old(self).parse.wf(),
        ensures
            final(self).parse.wf(),
            final(self).parse.text() == old(self).parse.text(),
            forall|s: Selector|
                #[trigger] r.ruleset.lookup(s) == gather(
                    css_blocks(old(self).parse.text(), old(self).parse.pos()),
                    s,
                ),
    {
        let ghost t = self.parse.text();
        let ghost p0 = self.parse.pos();
        let ghost mut done: Seq<(Option<Selector>, Seq<Declaration>)> = Seq::empty();
        let mut rule = Rule::new();
        assert(css_blocks(t, p0) =~= done + css_blocks(t, p0));
        while !self.parse.end_of_string()
            invariant
                self.parse.wf(),
                self.parse.text() == t,
                css_blocks(t, p0) == done + css_blocks(t, self.parse.pos()),
                forall|s: Selector| #[trigger] rule.lookup(s) == gather(done, s),
            decreases t.len() - self.parse.pos(),
        {
            let ghost p = self.parse.pos();
            proof {
                lemma_rule_moves(t, p);
            }
            let sel = self.parse_selector();
            let dec = self.parse_declaration();
            let ghost block = (sel, dec@);
            let ghost before = done;
            proof {
                assert(css_blocks(t, p) == seq![block] + css_blocks(t, self.parse.pos()));
                assert(done + css_blocks(t, p) =~= done.push(block) + css_blocks(
                    t,
                    self.parse.pos(),
                ));
                done = done.push(block);
                assert(done.drop_last() =~= before);
                assert(done.last() == block);
            }
            match sel {
                Some(s) => {
                    rule.append_declarations(s, dec);
                    assert forall|x: Selector| #[trigger] rule.lookup(x) == gather(done, x) by {
                        assert(gather(before, x) == gather(done.drop_last(), x));
                    }
                },
                None => {
                    assert forall|x: Selector| #[trigger] rule.lookup(x) == gather(done, x) by {
                        assert(gather(before, x) == gather(done.drop_last(), x));
                    }
                },
            }
        }
        proof {
            assert(done + css_blocks(t, self.parse.pos()) =~= done);
        }
        StyleSheet { ruleset: rule }
    }
}

/// Adds the declaration of a pair to `dec_list`, where it has a value and
/// both its name and its value are recognised.
fn add_declaration_if_valid(dec_list: &mut Vec<Declaration>, prop: &String, val: &Option<String>)
    ensures
        final(dec_list)@ == old(dec_list)@ + match *val {
            Some(v) => pair_decls(prop@, v@),
            None => Seq::empty(),
        },
{
    match val {
        Some(v) => {
            let parsed_prop = string_to_property(prop.as_str());
            let parsed_val = string_to_value(v.as_str());
            match parsed_prop {
                Some(property) => {
                    if parsed_val != Value::Missing {
                        dec_list.push(
                            Declaration { property_name: property, property_value: parsed_val },
                        );
                    }
                },
                None => {},
            }
        },
        None => {},
    }
    assert(dec_list@ =~= old(dec_list)@ + match *val {
        Some(v) => pair_decls(prop@, v@),
        None => Seq::empty(),
    });
}

} // verus!

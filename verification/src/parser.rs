use vstd::prelude::*;

verus! {

use crate::backend::MyRange;

/// What the grammar query reports for one matched string element: the node's
/// source text (quote marks included) and its start row, start column, end
/// row and end column.
pub type ItemModel = (Seq<char>, usize, usize, usize, usize);

/// The sequence of string elements that the typescript grammar finds in the
/// array initializers of the variable declarators named `target` inside
/// `text`, in document order. The grammar engine is deterministic, so this is
/// a function of `text` and `target` alone.
pub uninterp spec fn ts_string_items(text: Seq<char>, target: Seq<char>) -> Seq<ItemModel>;

/// Declares tree_sitter's position type; its public `row` and `column`
/// fields can then be read in verified code.
#[verifier::external_type_specification]
pub struct ExPoint(tree_sitter::Point);

/// Declares tree_sitter's range type; its public byte offsets and points can
/// then stand in signatures and be read in verified code.
#[verifier::external_type_specification]
pub struct ExTsRange(tree_sitter::Range);

/// One captured node as the wrapper hands it back agrees with one entry of
/// `ts_string_items`: same text and same positions.
pub open spec fn captured_item_is(c: (String, tree_sitter::Range), m: ItemModel) -> bool {
    &&& c.0@ == m.0
    &&& c.1.start_point.row == m.1
    &&& c.1.start_point.column == m.2
    &&& c.1.end_point.row == m.3
    &&& c.1.end_point.column == m.4
}

/// Relies on tree_sitter's `Parser::parse` and `QueryCursor::matches`, with
/// the grammar of tree_sitter_typescript, running the structural query
/// `(variable_declarator name: ((identifier) @id (#eq? @id "<target>"))
/// value: ((array ((string) @item))))`: one entry per captured `@item` node
/// (capture index 1), in document order, carrying the node's source text and
/// its range. Parsing and matching depend on the inputs alone; on any parser
/// or query failure the engine yields no matches.
#[verifier::external_body]
fn ts_query_string_items(source: &str, target: &str) -> (r: Vec<(String, tree_sitter::Range)>)
    ensures
        r@.len() == ts_string_items(source@, target@).len(),
        forall|i: int| 0 <= i < r@.len() ==> captured_item_is(r@[i], ts_string_items(source@, target@)[i]),
{
    let mut out = Vec::new();
    let mut parser = tree_sitter::Parser::new();
    let lang = tree_sitter_typescript::language_typescript();
    let _ = parser.set_language(&lang);
    let Some(tree) = parser.parse(source, None) else { return out };
    let pattern = format!("(variable_declarator name: ((identifier) @id (#eq? @id \"{}\")) value: ((array ((string) @item))))", target);
    let Ok(query) = tree_sitter::Query::new(&lang, &pattern) else { return out };
    let mut cursor = tree_sitter::QueryCursor::new();
    for m in cursor.matches(&query, tree.root_node(), source.as_bytes()) {
        for c in m.captures {
            if c.index == 1 { out.push((source[c.node.byte_range()].to_string(), c.node.range())); }
        }
    }
    out
}

/// Whether the node text carries a quote mark at each end.
pub open spec fn quote_wrapped(s: Seq<char>) -> bool {
    s.len() >= 2 && s[0] == '"' && s[s.len() - 1] == '"'
}

/// The node text with its surrounding quote marks removed; text that is not
/// quote-wrapped is kept as it stands.
pub open spec fn strip_quotes(s: Seq<char>) -> Seq<char> {
    if quote_wrapped(s) {
        s.subrange(1, s.len() - 1)
    } else {
        s
    }
}

/// One matched node, brought into the enclosed-content convention: the quote
/// marks leave the text and the columns move inward by one on each side.
pub open spec fn literal_model(m: ItemModel) -> ItemModel {
    if quote_wrapped(m.0) && m.2 < usize::MAX && m.4 > 0 {
        (strip_quotes(m.0), m.1, (m.2 + 1) as usize, m.3, (m.4 - 1) as usize)
    } else {
        m
    }
}

/// The literals that extraction owes for `text` and `target`: every matched
/// string element, in document order, under the enclosed-content convention.
pub open spec fn extracted_literals(text: Seq<char>, target: Seq<char>) -> Seq<ItemModel> {
    ts_string_items(text, target).map_values(|m: ItemModel| literal_model(m))
}

/// A string literal found in the source: its text with the quote marks
/// stripped, and the range of exactly the enclosed content.
#[derive(Debug)]
pub struct PositionalText {
    pub text: String,
    pub range: MyRange,
}

/// An extracted literal agrees with one entry of `extracted_literals`.
pub open spec fn positional_is(p: PositionalText, m: ItemModel) -> bool {
    &&& p.text@ == m.0
    &&& p.range.start_row == m.1
    &&& p.range.start_col == m.2
    &&& p.range.end_row == m.3
    &&& p.range.end_col == m.4
}

pub struct LspParser {}

impl LspParser {
    /// Runs the structural pattern query for declarators named `target` and
    /// maps every matched string element to a `PositionalText`, in document
    /// order. A text that cannot be parsed yields an empty sequence.
    pub fn extract(source_code: &str, target: &str) -> (r: Vec<PositionalText>)
        ensures
            r@.len() == extracted_literals(source_code@, target@).len(),
            forall|i: int|
                0 <= i < r@.len() ==> positional_is(
                    r@[i],
                    extracted_literals(source_code@, target@)[i],
                ),
    {
        let raw = ts_query_string_items(source_code, target);
        let mut out: Vec<PositionalText> = Vec::new();
        let mut idx: usize = 0;
        while idx < raw.len()
            invariant
                idx <= raw.len(),
                raw@.len() == ts_string_items(source_code@, target@).len(),
                forall|i: int|
                    0 <= i < raw@.len() ==> captured_item_is(
                        raw@[i],
                        ts_string_items(source_code@, target@)[i],
                    ),
                out@.len() == idx,
                forall|i: int|
                    0 <= i < idx as int ==> positional_is(
                        out@[i],
                        extracted_literals(source_code@, target@)[i],
                    ),
            decreases raw.len() - idx,
        {
            let item = &raw[idx];
            let text = item.0.clone();
            let sr = item.1.start_point.row;
            let sc = item.1.start_point.column;
            let er = item.1.end_point.row;
            let ec = item.1.end_point.column;
            let n = text.as_str().unicode_len();
            let wrapped = n >= 2 && text.as_str().get_char(0) == '"' && text.as_str().get_char(
                n - 1,
            ) == '"';
            if wrapped && sc < usize::MAX && ec > 0 {
                let content = text.as_str().substring_char(1, n - 1).to_owned();
                out.push(
                    PositionalText {
                        text: content,
                        range: MyRange {
                            start_row: sr,
                            start_col: sc + 1,
                            end_row: er,
                            end_col: ec - 1,
                        },
                    },
                );
            } else {
                out.push(
                    PositionalText {
                        text,
                        range: MyRange { start_row: sr, start_col: sc, end_row: er, end_col: ec },
                    },
                );
            }
            idx = idx + 1;
        }
        out
    }

    /// Extraction for the conventional variable name that the service
    /// watches.
    pub fn parse_code(source_code: &str) -> (r: Vec<PositionalText>)
        ensures
            r@.len() == extracted_literals(source_code@, "folders"@).len(),
            forall|i: int|
                0 <= i < r@.len() ==> positional_is(
                    r@[i],
                    extracted_literals(source_code@, "folders"@)[i],
                ),
    {
        Self::extract(source_code, "folders")
    }
}

} // verus!

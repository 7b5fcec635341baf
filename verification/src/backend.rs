use vstd::prelude::*;

verus! {

use crate::CliArgs;
use crate::matcher::{
    MatchResult, matches_model, scored_model, sort_desc, suggest, take_at_most,
};
use crate::parser::{ItemModel, LspParser, extracted_literals, positional_is};
use crate::store::DocumentStore;

/// How many fix suggestions a quickfix request retains at most.
pub const MATCH_LIMIT: usize = 15;

/// A source range in row/column coordinates, inclusive at the start and
/// exclusive at the end. For an extracted literal it spans exactly the
/// characters between the literal's quote marks.
#[derive(Clone, Copy, PartialEq, Eq, Structural, Debug)]
pub struct MyRange {
    pub start_row: usize,
    pub start_col: usize,
    pub end_row: usize,
    pub end_col: usize,
}

/// How serious a diagnostic is. Validation failures are reported as errors.
#[derive(Clone, Copy, PartialEq, Eq, Structural, Debug)]
pub enum Severity {
    Error,
    Information,
}

/// A finding about one literal: where it stands, how serious it is, a
/// human-readable message, and an opaque payload that carries the literal's
/// raw text to the quickfix step. A payload handed back by a client may be
/// missing, hence the option.
pub struct Diagnostic {
    pub range: MyRange,
    pub severity: Severity,
    pub message: String,
    pub data: Option<String>,
}

impl Diagnostic {
    /// An identical copy, field by field.
    pub fn duplicate(&self) -> (r: Diagnostic)
        ensures
            r == *self,
    {
        Diagnostic {
            range: self.range,
            severity: self.severity,
            message: self.message.clone(),
            data: match &self.data {
                Some(s) => Some(s.clone()),
                None => None,
            },
        }
    }
}

/// The message a diagnostic carries for the invalid text `text` when the
/// valid names come from the directory `dir`.
pub open spec fn message_of(text: Seq<char>, dir: Seq<char>) -> Seq<char> {
    "'"@ + text + "' is not a valid folder, valid folders are those in '"@ + dir + "'"@
}

fn build_message(text: &String, dir: &String) -> (r: String)
    ensures
        r@ == message_of(text@, dir@),
{
    let mut m = String::from_str("'");
    m.append(text.as_str());
    m.append("' is not a valid folder, valid folders are those in '");
    m.append(dir.as_str());
    m.append("'");
    proof {
        assert(m@ =~= message_of(text@, dir@));
    }
    m
}

/// Some candidate equals the text `t`. Membership is plain string equality:
/// no normalization, folding or trimming.
pub open spec fn candidate_has(cands: Seq<String>, t: Seq<char>) -> bool {
    exists|j: int| 0 <= j < cands.len() && cands[j]@ == t
}

fn contains_name(cands: &Vec<String>, t: &String) -> (r: bool)
    ensures
        r == candidate_has(cands@, t@),
{
    let mut j: usize = 0;
    while j < cands.len()
        invariant
            j <= cands@.len(),
            forall|k: int| 0 <= k < j as int ==> cands@[k]@ != t@,
        decreases cands@.len() - j,
    {
        if cands[j] == *t {
            return true;
        }
        j = j + 1;
    }
    false
}

/// The literals whose text is absent from the candidate set, in document
/// order.
pub open spec fn invalid_literals(lits: Seq<ItemModel>, cands: Seq<String>) -> Seq<ItemModel>
    decreases lits.len(),
{
    if lits.len() == 0 {
        Seq::empty()
    } else {
        let rest = invalid_literals(lits.drop_last(), cands);
        if candidate_has(cands, lits.last().0) {
            rest
        } else {
            rest.push(lits.last())
        }
    }
}

/// A diagnostic reports the literal `m`: its range is the literal's content
/// range, its severity is error, its message names the invalid text, and its
/// payload is the literal's raw text.
pub open spec fn diagnostic_is(d: Diagnostic, m: ItemModel, dir: Seq<char>) -> bool {
    &&& d.range.start_row == m.1
    &&& d.range.start_col == m.2
    &&& d.range.end_row == m.3
    &&& d.range.end_col == m.4
    &&& d.severity == Severity::Error
    &&& d.message@ == message_of(m.0, dir)
    &&& d.data matches Some(s) && s@ == m.0
}

/// Extracts the literals of the declarators named `target` in `source_code`
/// and reports, in document order, every literal whose text is not a
/// candidate; valid literals produce nothing. `dir` only names the candidate
/// source in the message.
pub fn diagnose(source_code: &str, candidates: &Vec<String>, target: &str, dir: &String) -> (r:
    Vec<Diagnostic>)
    ensures
        r@.len() == invalid_literals(
            extracted_literals(source_code@, target@),
            candidates@,
        ).len(),
        forall|i: int|
            0 <= i < r@.len() ==> diagnostic_is(
                r@[i],
                invalid_literals(extracted_literals(source_code@, target@), candidates@)[i],
                dir@,
            ),
{
    let ghost all = extracted_literals(source_code@, target@);
    let lits = LspParser::extract(source_code, target);
    let mut out: Vec<Diagnostic> = Vec::new();
    let mut i: usize = 0;
    while i < lits.len()
        invariant
            i <= lits@.len(),
            lits@.len() == all.len(),
            all == extracted_literals(source_code@, target@),
            forall|k: int| 0 <= k < lits@.len() ==> positional_is(lits@[k], all[k]),
            out@.len() == invalid_literals(all.take(i as int), candidates@).len(),
            forall|k: int|
                0 <= k < out@.len() ==> diagnostic_is(
                    out@[k],
                    invalid_literals(all.take(i as int), candidates@)[k],
                    dir@,
                ),
        decreases lits@.len() - i,
    {
        let lit = &lits[i];
        let valid = contains_name(candidates, &lit.text);
        proof {
            assert(all.take(i + 1).drop_last() =~= all.take(i as int));
            assert(all.take(i + 1).last() == all[i as int]);
            assert(lit.text@ == all[i as int].0);
        }
        if !valid {
            let msg = build_message(&lit.text, dir);
            out.push(
                Diagnostic {
                    range: lit.range,
                    severity: Severity::Error,
                    message: msg,
                    data: Some(lit.text.clone()),
                },
            );
        }
        i = i + 1;
    }
    proof {
        assert(all.take(all.len() as int) =~= all);
    }
    out
}

/// When every extracted literal's text is a member of the candidate set, the
/// diagnostic generator owes no diagnostic at all.
pub proof fn lemma_all_valid_no_diagnostics(lits: Seq<ItemModel>, cands: Seq<String>)
    requires
        forall|i: int| 0 <= i < lits.len() ==> candidate_has(cands, #[trigger] lits[i].0),
    ensures
        invalid_literals(lits, cands).len() == 0,
    decreases lits.len(),
{
    if lits.len() > 0 {
        assert forall|i: int| 0 <= i < lits.drop_last().len() implies candidate_has(
            cands,
            #[trigger] lits.drop_last()[i].0,
        ) by {
            assert(lits.drop_last()[i] == lits[i]);
        }
        lemma_all_valid_no_diagnostics(lits.drop_last(), cands);
        assert(candidate_has(cands, lits.last().0));
    }
}

/// When exactly one extracted literal is absent from the candidate set, the
/// diagnostic generator owes exactly one diagnostic, and it reports that
/// literal: same range and the literal's text as payload.
pub proof fn lemma_one_invalid_one_diagnostic(lits: Seq<ItemModel>, cands: Seq<String>, j: int)
    requires
        0 <= j < lits.len(),
        !candidate_has(cands, lits[j].0),
        forall|i: int|
            0 <= i < lits.len() && i != j ==> candidate_has(cands, #[trigger] lits[i].0),
    ensures
        invalid_literals(lits, cands).len() == 1,
        invalid_literals(lits, cands)[0] == lits[j],
    decreases lits.len(),
{
    let pre = lits.drop_last();
    if j == lits.len() - 1 {
        assert forall|i: int| 0 <= i < pre.len() implies candidate_has(
            cands,
            #[trigger] pre[i].0,
        ) by {
            assert(pre[i] == lits[i]);
        }
        lemma_all_valid_no_diagnostics(pre, cands);
        assert(lits.last() == lits[j]);
    } else {
        assert forall|i: int| 0 <= i < pre.len() && i != j implies candidate_has(
            cands,
            #[trigger] pre[i].0,
        ) by {
            assert(pre[i] == lits[i]);
        }
        assert(pre[j] == lits[j]);
        lemma_one_invalid_one_diagnostic(pre, cands, j);
        assert(lits.last() == lits[lits.len() - 1]);
        assert(candidate_has(cands, lits.last().0));
    }
}

/// The name wrapped in quote characters, as completion insertions and fix
/// edits write it.
pub open spec fn quoted(name: Seq<char>) -> Seq<char> {
    "\""@ + name + "\""@
}

/// One completion entry: the bare name as label, a fixed detail, and the
/// quoted name as insertion text.
pub struct CompletionItem {
    pub label: String,
    pub detail: String,
    pub insert_text: String,
}

/// A completion item offers the candidate `name`.
pub open spec fn completion_item_is(c: CompletionItem, name: Seq<char>) -> bool {
    &&& c.label@ == name
    &&& c.detail@ == "Directory"@
    &&& c.insert_text@ == quoted(name)
}

/// The completion entry for one candidate name.
pub fn to_completionitem(name: &String) -> (r: CompletionItem)
    ensures
        completion_item_is(r, name@),
{
    let label = name.clone();
    let detail = String::from_str("Directory");
    let mut insert_text = String::from_str("\"");
    insert_text.append(name.as_str());
    insert_text.append("\"");
    proof {
        assert(insert_text@ =~= quoted(name@));
    }
    CompletionItem { label, detail, insert_text }
}

/// The cursor stands strictly inside the literal's span: on its start row,
/// strictly between its start and end column.
pub open spec fn inside_literal(m: ItemModel, line: usize, character: usize) -> bool {
    m.1 == line && m.2 < character && character < m.4
}

/// Some extracted literal has the cursor strictly inside its span.
pub open spec fn range_triggered(lits: Seq<ItemModel>, line: usize, character: usize) -> bool {
    exists|i: int| 0 <= i < lits.len() && inside_literal(#[trigger] lits[i], line, character)
}

/// The pattern stands in the text at position `i`.
pub open spec fn occurs_at(text: Seq<char>, pat: Seq<char>, i: int) -> bool {
    0 <= i && i + pat.len() <= text.len() && text.subrange(i, i + pat.len()) == pat
}

/// The first position at or after `i` where the pattern stands in the text.
pub open spec fn first_occurrence_from(text: Seq<char>, pat: Seq<char>, i: int) -> Option<int>
    decreases text.len() + 1 - i,
{
    if i + pat.len() > text.len() {
        None
    } else if occurs_at(text, pat, i) {
        Some(i)
    } else {
        first_occurrence_from(text, pat, i + 1)
    }
}

/// The number of newline characters strictly before position `upto`.
pub open spec fn count_newlines(text: Seq<char>, upto: int) -> int
    decreases upto,
{
    if upto <= 0 {
        0
    } else {
        count_newlines(text, upto - 1) + (if text[upto - 1] == '\n' {
            1int
        } else {
            0int
        })
    }
}

/// The cursor's line equals the line on which the first occurrence of the
/// trigger substring stands; a text without the substring triggers nothing.
pub open spec fn line_triggered(text: Seq<char>, pat: Seq<char>, line: usize) -> bool {
    match first_occurrence_from(text, pat, 0) {
        Some(i) => count_newlines(text, i) == line as int,
        None => false,
    }
}

fn match_at(text: &str, pat: &str, i: usize) -> (r: bool)
    requires
        i + pat@.len() <= text@.len(),
        text@.len() <= usize::MAX,
    ensures
        r == occurs_at(text@, pat@, i as int),
{
    let m = pat.unicode_len();
    let mut k: usize = 0;
    while k < m
        invariant
            k <= m,
            m == pat@.len(),
            i + m <= text@.len(),
            text@.len() <= usize::MAX,
            forall|t: int| 0 <= t < k as int ==> text@[i + t] == pat@[t],
        decreases m - k,
    {
        if text.get_char(i + k) != pat.get_char(k) {
            proof {
                if occurs_at(text@, pat@, i as int) {
                    assert(text@.subrange(i as int, i + pat@.len())[k as int] == text@[i + k]);
                }
            }
            return false;
        }
        k = k + 1;
    }
    proof {
        assert(text@.subrange(i as int, i + pat@.len()) =~= pat@);
    }
    true
}

fn find_first(text: &str, pat: &str) -> (r: Option<usize>)
    ensures
        match r {
            Some(i) => first_occurrence_from(text@, pat@, 0) == Some(i as int) && i + pat@.len()
                <= text@.len(),
            None => first_occurrence_from(text@, pat@, 0) is None,
        },
{
    let n = text.unicode_len();
    let m = pat.unicode_len();
    if m == 0 {
        proof {
            assert(text@.subrange(0, 0) =~= pat@);
        }
        return Some(0);
    }
    if m > n {
        return None;
    }
    let mut i: usize = 0;
    while i <= n - m
        invariant
            1 <= m <= n,
            n == text@.len(),
            m == pat@.len(),
            i <= n - m + 1,
            first_occurrence_from(text@, pat@, 0) == first_occurrence_from(
                text@,
                pat@,
                i as int,
            ),
        decreases n - m + 1 - i,
    {
        if match_at(text, pat, i) {
            return Some(i);
        }
        i = i + 1;
    }
    None
}

fn count_lines_upto(text: &str, upto: usize) -> (r: usize)
    requires
        upto <= text@.len(),
    ensures
        r as int == count_newlines(text@, upto as int),
{
    let mut k: usize = 0;
    let mut r: usize = 0;
    while k < upto
        invariant
            k <= upto,
            upto <= text@.len(),
            r <= k,
            r as int == count_newlines(text@, k as int),
        decreases upto - k,
    {
        if text.get_char(k) == '\n' {
            r = r + 1;
        }
        k = k + 1;
    }
    r
}

/// How completion decides that it was asked inside the watched array: by the
/// cursor standing inside a literal's range, or — in the legacy mode — by the
/// cursor's line being the line of the first occurrence of a configured
/// trigger substring.
#[derive(Clone, Copy, PartialEq, Eq, Structural, Debug)]
pub enum TriggerMode {
    Range,
    Line,
}

/// Whether a completion request at the cursor is triggered, under the chosen
/// mode.
pub open spec fn completion_triggered(
    mode: TriggerMode,
    text: Seq<char>,
    target: Seq<char>,
    prefix: Seq<char>,
    line: usize,
    character: usize,
) -> bool {
    match mode {
        TriggerMode::Range => range_triggered(extracted_literals(text, target), line, character),
        TriggerMode::Line => line_triggered(text, prefix, line),
    }
}

/// Decides whether the cursor triggers completion and, when it does, offers
/// one item per candidate, in candidate order; otherwise offers nothing.
pub fn complete(
    source_code: &str,
    line: usize,
    character: usize,
    target: &str,
    candidates: &Vec<String>,
    mode: TriggerMode,
    prefix: &String,
) -> (r: Option<Vec<CompletionItem>>)
    ensures
        (r is Some) == completion_triggered(
            mode,
            source_code@,
            target@,
            prefix@,
            line,
            character,
        ),
        r matches Some(items) ==> items@.len() == candidates@.len() && (forall|j: int|
            0 <= j < items@.len() ==> completion_item_is(items@[j], candidates@[j]@)),
{
    let triggered: bool = match mode {
        TriggerMode::Range => {
            let ghost ext = extracted_literals(source_code@, target@);
            let lits = LspParser::extract(source_code, target);
            let mut found = false;
            let mut i: usize = 0;
            while i < lits.len()
                invariant
                    i <= lits@.len(),
                    lits@.len() == ext.len(),
                    ext == extracted_literals(source_code@, target@),
                    forall|k: int| 0 <= k < lits@.len() ==> positional_is(lits@[k], ext[k]),
                    found == range_triggered(ext.take(i as int), line, character),
                decreases lits@.len() - i,
            {
                let l = &lits[i];
                proof {
                    assert(ext.take(i + 1).drop_last() =~= ext.take(i as int));
                    if found {
                        let k = choose|k: int|
                            0 <= k < ext.take(i as int).len() && inside_literal(
                                #[trigger] ext.take(i as int)[k],
                                line,
                                character,
                            );
                        assert(ext.take(i + 1)[k] == ext.take(i as int)[k]);
                    }
                }
                if l.range.start_row == line && l.range.start_col < character && character
                    < l.range.end_col {
                    found = true;
                    proof {
                        assert(inside_literal(ext.take(i + 1)[i as int], line, character));
                    }
                } else {
                    proof {
                        assert(!inside_literal(ext[i as int], line, character));
                        if range_triggered(ext.take(i + 1), line, character) && !found {
                            let k = choose|k: int|
                                0 <= k < ext.take(i + 1).len() && inside_literal(
                                    #[trigger] ext.take(i + 1)[k],
                                    line,
                                    character,
                                );
                            if k < i as int {
                                assert(ext.take(i as int)[k] == ext.take(i + 1)[k]);
                                assert(range_triggered(ext.take(i as int), line, character));
                            } else {
                                assert(ext.take(i + 1)[k] == ext[i as int]);
                            }
                            assert(false);
                        }
                    }
                }
                i = i + 1;
            }
            proof {
                assert(ext.take(ext.len() as int) =~= ext);
            }
            found
        },
        TriggerMode::Line => {
            match find_first(source_code, prefix.as_str()) {
                Some(idx) => {
                    let ln = count_lines_upto(source_code, idx);
                    ln == line
                },
                None => false,
            }
        },
    };
    if triggered {
        let mut items: Vec<CompletionItem> = Vec::new();
        let mut j: usize = 0;
        while j < candidates.len()
            invariant
                j <= candidates@.len(),
                items@.len() == j,
                forall|k: int| 0 <= k < j as int ==> completion_item_is(items@[k], candidates@[k]@),
            decreases candidates@.len() - j,
        {
            items.push(to_completionitem(&candidates[j]));
            j = j + 1;
        }
        Some(items)
    } else {
        None
    }
}

/// One replacement of a source range by new text.
pub struct TextEdit {
    pub range: MyRange,
    pub new_text: String,
}

/// An automated fix offered for a diagnostic: an edit that writes the quoted
/// candidate name over the diagnostic's range, a title naming the candidate,
/// and the originating diagnostic attached for the association. Every action
/// the service offers is a quick fix.
pub struct CodeAction {
    pub title: String,
    pub diagnostic: Diagnostic,
    pub edit: TextEdit,
    pub uri: String,
}

/// The title under which a fix for the candidate `name` is offered.
pub open spec fn action_title(name: Seq<char>) -> Seq<char> {
    "Use folder "@ + name
}

/// A code action offers the candidate `name` as a fix for the diagnostic
/// `d` in the document `uri`.
pub open spec fn code_action_is(a: CodeAction, d: Diagnostic, name: Seq<char>, uri: Seq<char>) -> bool {
    &&& a.title@ == action_title(name)
    &&& a.diagnostic == d
    &&& a.edit.range == d.range
    &&& a.edit.new_text@ == quoted(name)
    &&& a.uri@ == uri
}

/// One code action per retained suggestion, in suggestion order, each fixing
/// the given diagnostic.
pub fn to_code_actions(diagnostic: &Diagnostic, suggestions: &Vec<MatchResult>, uri: &String) -> (r:
    Vec<CodeAction>)
    ensures
        r@.len() == suggestions@.len(),
        forall|i: int|
            0 <= i < r@.len() ==> code_action_is(r@[i], *diagnostic, suggestions@[i].name@, uri@),
{
    let mut out: Vec<CodeAction> = Vec::new();
    let mut j: usize = 0;
    while j < suggestions.len()
        invariant
            j <= suggestions@.len(),
            out@.len() == j,
            forall|k: int|
                0 <= k < j as int ==> code_action_is(
                    out@[k],
                    *diagnostic,
                    suggestions@[k].name@,
                    uri@,
                ),
        decreases suggestions@.len() - j,
    {
        let s = &suggestions[j];
        let mut title = String::from_str("Use folder ");
        title.append(s.name.as_str());
        let mut new_text = String::from_str("\"");
        new_text.append(s.name.as_str());
        new_text.append("\"");
        proof {
            assert(title@ =~= action_title(s.name@));
            assert(new_text@ =~= quoted(s.name@));
        }
        out.push(
            CodeAction {
                title,
                diagnostic: diagnostic.duplicate(),
                edit: TextEdit { range: diagnostic.range, new_text },
                uri: uri.clone(),
            },
        );
        j = j + 1;
    }
    out
}

/// The suggestions owed for one diagnostic: the ranked candidates for its
/// payload, none when the payload is missing.
pub open spec fn suggestions_for(d: Diagnostic, cands: Seq<String>, limit: int) -> Seq<
    (Seq<char>, i64),
> {
    match d.data {
        Some(s) => take_at_most(sort_desc(scored_model(cands, s@)), limit),
        None => Seq::empty(),
    }
}

/// The fixes owed for a sequence of diagnostics, in diagnostic order: for
/// each diagnostic, one entry per retained suggestion, pairing the
/// diagnostic with the suggested name.
pub open spec fn actions_model(diags: Seq<Diagnostic>, cands: Seq<String>, limit: int) -> Seq<
    (Diagnostic, Seq<char>),
>
    decreases diags.len(),
{
    if diags.len() == 0 {
        Seq::empty()
    } else {
        actions_model(diags.drop_last(), cands, limit) + suggestions_for(
            diags.last(),
            cands,
            limit,
        ).map_values(|p: (Seq<char>, i64)| (diags.last(), p.0))
    }
}

/// The serving core: the open documents, the configuration, and whether the
/// client asked for published diagnostics.
pub struct Backend {
    pub documents: DocumentStore,
    pub args: CliArgs,
    pub push_diagnostics: bool,
    pub trigger_mode: TriggerMode,
}

impl Backend {
    /// A fresh core: no documents, diagnostics not yet requested.
    pub fn new(args: CliArgs, trigger_mode: TriggerMode) -> (r: Backend)
        ensures
            r.documents@ == Map::<Seq<char>, Seq<char>>::empty(),
            r.args == args,
            r.push_diagnostics == false,
            r.trigger_mode == trigger_mode,
    {
        Backend { documents: DocumentStore::new(), args, push_diagnostics: false, trigger_mode }
    }

    /// Records whether the client receives published diagnostics.
    pub fn set_push_diagnostics(&mut self, v: bool)
        ensures
            final(self).push_diagnostics == v,
            final(self).documents == old(self).documents,
            final(self).args == old(self).args,
            final(self).trigger_mode == old(self).trigger_mode,
    {
        self.push_diagnostics = v;
    }

    /// Stores the full text of a newly opened document.
    pub fn open_document(&mut self, id: String, text: String)
        ensures
            final(self).documents@ == old(self).documents@.insert(id@, text@),
            final(self).args == old(self).args,
            final(self).push_diagnostics == old(self).push_diagnostics,
            final(self).trigger_mode == old(self).trigger_mode,
    {
        self.documents.replace(id, text);
    }

    /// Replaces a document's content wholly; every change event carries the
    /// complete new text.
    pub fn change_document(&mut self, id: String, text: String)
        ensures
            final(self).documents@ == old(self).documents@.insert(id@, text@),
            final(self).args == old(self).args,
            final(self).push_diagnostics == old(self).push_diagnostics,
            final(self).trigger_mode == old(self).trigger_mode,
    {
        self.documents.replace(id, text);
    }

    /// Forgets a closed document.
    pub fn close_document(&mut self, id: &String)
        ensures
            final(self).documents@ == old(self).documents@.remove(id@),
            final(self).args == old(self).args,
            final(self).push_diagnostics == old(self).push_diagnostics,
            final(self).trigger_mode == old(self).trigger_mode,
    {
        self.documents.remove(id);
    }

    /// Forgets every document, as shutdown does.
    pub fn clear_documents(&mut self)
        ensures
            final(self).documents@ == Map::<Seq<char>, Seq<char>>::empty(),
            final(self).args == old(self).args,
            final(self).push_diagnostics == old(self).push_diagnostics,
            final(self).trigger_mode == old(self).trigger_mode,
    {
        self.documents.clear();
    }

    /// The stored text of a document, if any.
    pub fn read_document(&self, id: &String) -> (r: Option<&String>)
        ensures
            match r {
                Some(t) => self.documents@.contains_key(id@) && t@ == self.documents@[id@],
                None => !self.documents@.contains_key(id@),
            },
    {
        self.documents.read(id)
    }

    /// Diagnostics for a document's text against a fresh candidate set, for
    /// the conventional variable name; the configured directory names the
    /// candidate source in each message.
    pub fn perform_diagnostics(&self, source_code: &str, candidates: &Vec<String>) -> (r: Vec<
        Diagnostic,
    >)
        ensures
            r@.len() == invalid_literals(
                extracted_literals(source_code@, "folders"@),
                candidates@,
            ).len(),
            forall|i: int|
                0 <= i < r@.len() ==> diagnostic_is(
                    r@[i],
                    invalid_literals(extracted_literals(source_code@, "folders"@), candidates@)[i],
                    self.args.suggestionsdir@,
                ),
    {
        diagnose(source_code, candidates, "folders", &self.args.suggestionsdir)
    }

    /// Completion for a stored document at a cursor position: items for every
    /// candidate when the cursor triggers completion, nothing otherwise or
    /// when the document is unknown.
    pub fn completion_at(
        &self,
        id: &String,
        line: usize,
        character: usize,
        candidates: &Vec<String>,
    ) -> (r: Option<Vec<CompletionItem>>)
        ensures
            !self.documents@.contains_key(id@) ==> r is None,
            self.documents@.contains_key(id@) ==> (r is Some) == completion_triggered(
                self.trigger_mode,
                self.documents@[id@],
                "folders"@,
                self.args.prefix@,
                line,
                character,
            ),
            r matches Some(items) ==> items@.len() == candidates@.len() && (forall|j: int|
                0 <= j < items@.len() ==> completion_item_is(items@[j], candidates@[j]@)),
    {
        match self.documents.read(id) {
            Some(text) => complete(
                text.as_str(),
                line,
                character,
                "folders",
                candidates,
                self.trigger_mode,
                &self.args.prefix,
            ),
            None => None,
        }
    }

    /// Quickfixes for a request's diagnostics: for each diagnostic in order,
    /// one action per ranked suggestion for its payload; a diagnostic whose
    /// payload is missing yields no action.
    pub fn code_actions(
        &self,
        uri: &String,
        diagnostics: &Vec<Diagnostic>,
        candidates: &Vec<String>,
    ) -> (r: Vec<CodeAction>)
        ensures
            r@.len() == actions_model(diagnostics@, candidates@, MATCH_LIMIT as int).len(),
            forall|i: int|
                0 <= i < r@.len() ==> code_action_is(
                    r@[i],
                    actions_model(diagnostics@, candidates@, MATCH_LIMIT as int)[i].0,
                    actions_model(diagnostics@, candidates@, MATCH_LIMIT as int)[i].1,
                    uri@,
                ),
    {
        let ghost lim = MATCH_LIMIT as int;
        let mut out: Vec<CodeAction> = Vec::new();
        let mut i: usize = 0;
        while i < diagnostics.len()
            invariant
                i <= diagnostics@.len(),
                out@.len() == actions_model(diagnostics@.take(i as int), candidates@, lim).len(),
                lim == MATCH_LIMIT as int,
                forall|k: int|
                    0 <= k < out@.len() ==> code_action_is(
                        out@[k],
                        actions_model(diagnostics@.take(i as int), candidates@, lim)[k].0,
                        actions_model(diagnostics@.take(i as int), candidates@, lim)[k].1,
                        uri@,
                    ),
            decreases diagnostics@.len() - i,
        {
            let d = &diagnostics[i];
            let ghost prev = actions_model(diagnostics@.take(i as int), candidates@, lim);
            let ghost cur = actions_model(diagnostics@.take(i + 1), candidates@, lim);
            proof {
                assert(diagnostics@.take(i + 1).drop_last() =~= diagnostics@.take(i as int));
                assert(diagnostics@.take(i + 1).last() == diagnostics@[i as int]);
            }
            match &d.data {
                Some(payload) => {
                    let sugg = suggest(payload.as_str(), candidates, MATCH_LIMIT);
                    let mut acts = to_code_actions(d, &sugg, uri);
                    let ghost pre_out = out@;
                    let ghost acts_view = acts@;
                    out.append(&mut acts);
                    proof {
                        let tail = suggestions_for(*d, candidates@, lim).map_values(
                            |p: (Seq<char>, i64)| (*d, p.0),
                        );
                        assert(suggestions_for(*d, candidates@, lim) == matches_model(
                            sugg@,
                        ));
                        assert(cur =~= prev + tail);
                        assert forall|k: int| 0 <= k < out@.len() implies code_action_is(
                            out@[k],
                            cur[k].0,
                            cur[k].1,
                            uri@,
                        ) by {
                            if k < pre_out.len() {
                                assert(out@[k] == pre_out[k]);
                                assert(cur[k] == prev[k]);
                            } else {
                                let j = k - pre_out.len();
                                assert(out@[k] == acts_view[j]);
                                assert(cur[k] == tail[j]);
                                assert(tail[j].1 == matches_model(sugg@)[j].0);
                                assert(matches_model(sugg@)[j] == (
                                    sugg@[j].name@,
                                    sugg@[j].score,
                                ));
                            }
                        }
                    }
                },
                None => {
                    proof {
                        assert(suggestions_for(*d, candidates@, lim) =~= Seq::<
                            (Seq<char>, i64),
                        >::empty());
                        assert(cur =~= prev);
                    }
                },
            }
            i = i + 1;
        }
        proof {
            assert(diagnostics@.take(diagnostics@.len() as int) =~= diagnostics@);
        }
        out
    }
}

} // verus!

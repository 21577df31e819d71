//! The response interpreter: reading the provider's reply out of its parsed
//! XML document and classifying one update cycle's outcome.
//!
//! The provider answers with an `interface-response` document carrying an
//! `errors` block (provider-reported error messages) and a `responses` block
//! (one change record per child, each with a `Description` and a
//! `ResponseNumber`). Both blocks are read all-or-nothing: a single child
//! missing its required text discards the whole reply as malformed.

use vstd::prelude::*;

use crate::text::strings_view;
use crate::xml::XmlNode;
use crate::xml::XmlNodeView;
use crate::xml::nodes_view;
use crate::xml::spec_find_tag_from;
use crate::xml::spec_find_child_tag;
use crate::xml::spec_find_child_tag_from;
use crate::xml::spec_child_indices;
use crate::xml::spec_subtree_end;
use crate::xml::spec_is_child;
use crate::xml::find_tag_from;
use crate::xml::subtree_end;
use crate::xml::child_elements;
use crate::xml::doc_elements;
use crate::xml::parse_xml_elements;
use crate::text::spec_join;
use crate::text::spec_dec_digits;
use crate::text::spec_contains_seq;
use crate::text::lemma_concat_contains_middle;
use crate::text::append_decimal;
use crate::text::join_strings;

verus! {

/// One change record reported by the provider.
#[derive(Debug, Clone, PartialEq, Eq)]
pub struct ResponseEntry {
    pub description: String,
    pub number: String,
}

/// The mathematical value of a [`ResponseEntry`].
pub struct ResponseEntryView {
    pub description: Seq<char>,
    pub number: Seq<char>,
}

impl View for ResponseEntry {
    type V = ResponseEntryView;

    open spec fn view(&self) -> ResponseEntryView {
        ResponseEntryView { description: self.description@, number: self.number@ }
    }
}

/// The character sequences of a vector of entries.
pub open spec fn entries_view(v: Seq<ResponseEntry>) -> Seq<ResponseEntryView> {
    v.map_values(|e: ResponseEntry| e@)
}

/// A provider reply read whole: its error messages and its change records,
/// each in document order.
#[derive(Debug, Clone, PartialEq, Eq)]
pub struct ProviderResponse {
    pub errors: Vec<String>,
    pub entries: Vec<ResponseEntry>,
}

/// The mathematical value of a [`ProviderResponse`].
pub struct ProviderResponseView {
    pub errors: Seq<Seq<char>>,
    pub entries: Seq<ResponseEntryView>,
}

impl View for ProviderResponse {
    type V = ProviderResponseView;

    open spec fn view(&self) -> ProviderResponseView {
        ProviderResponseView {
            errors: strings_view(self.errors@),
            entries: entries_view(self.entries@),
        }
    }
}

/// Why a well-formed document still failed to read as a provider reply.
///
/// A missing `ResponseNumber` reports the same failure as a missing
/// `Description`, and likewise for their text: the provider contract does not
/// tell the two fields' failures apart.
#[derive(Debug, Clone, Copy, PartialEq, Eq, Structural)]
pub enum ParseError {
    /// No `interface-response` element anywhere in the document.
    RootMissing,
    /// The root has no `errors` child.
    ErrorsMissing,
    /// A child of `errors` carries no text.
    ErrorTextMissing,
    /// The root has no `responses` child.
    ResponsesMissing,
    /// A change record lacks its `Description` or `ResponseNumber` child.
    EntryElemMissing,
    /// A change record's `Description` or `ResponseNumber` carries no text.
    EntryTextMissing,
}

/// The wording of each failure, as reported to the operator.
pub open spec fn spec_parse_error_message(e: ParseError) -> Seq<char> {
    match e {
        ParseError::RootMissing => "root node missing"@,
        ParseError::ErrorsMissing => "errors missing from response"@,
        ParseError::ErrorTextMissing => "text missing from error"@,
        ParseError::ResponsesMissing => "responses missing from response"@,
        ParseError::EntryElemMissing => "response missing description elem"@,
        ParseError::EntryTextMissing => "response description elem missing text"@,
    }
}

impl ParseError {
    /// The failure's wording.
    pub fn message(&self) -> (r: String)
        ensures
            r@ == spec_parse_error_message(*self),
    {
        match self {
            ParseError::RootMissing => String::from_str("root node missing"),
            ParseError::ErrorsMissing => String::from_str("errors missing from response"),
            ParseError::ErrorTextMissing => String::from_str("text missing from error"),
            ParseError::ResponsesMissing => String::from_str("responses missing from response"),
            ParseError::EntryElemMissing => String::from_str("response missing description elem"),
            ParseError::EntryTextMissing => String::from_str(
                "response description elem missing text",
            ),
        }
    }
}

/// The texts of the nodes at `idxs`, all-or-nothing: one node without text
/// fails the whole collection.
pub open spec fn spec_collect_texts(v: Seq<XmlNodeView>, idxs: Seq<int>) -> Result<
    Seq<Seq<char>>,
    ParseError,
>
    decreases idxs.len(),
{
    if idxs.len() == 0 {
        Ok(Seq::empty())
    } else {
        match v[idxs[0]].text {
            None => Err(ParseError::ErrorTextMissing),
            Some(t) => match spec_collect_texts(v, idxs.drop_first()) {
                Ok(rest) => Ok(seq![t] + rest),
                Err(e) => Err(e),
            },
        }
    }
}

/// The change record spelled by the element at `j`: the text of its
/// `Description` child and the text of its `ResponseNumber` child.
pub open spec fn spec_entry_of(v: Seq<XmlNodeView>, j: int) -> Result<
    ResponseEntryView,
    ParseError,
> {
    match spec_find_child_tag(v, j, "Description"@) {
        None => Err(ParseError::EntryElemMissing),
        Some(d) => match v[d].text {
            None => Err(ParseError::EntryTextMissing),
            Some(desc) => match spec_find_child_tag(v, j, "ResponseNumber"@) {
                None => Err(ParseError::EntryElemMissing),
                Some(n) => match v[n].text {
                    None => Err(ParseError::EntryTextMissing),
                    Some(num) => Ok(ResponseEntryView { description: desc, number: num }),
                },
            },
        },
    }
}

/// The change records of the elements at `idxs`, all-or-nothing: one failing
/// record fails the whole collection.
pub open spec fn spec_collect_entries(v: Seq<XmlNodeView>, idxs: Seq<int>) -> Result<
    Seq<ResponseEntryView>,
    ParseError,
>
    decreases idxs.len(),
{
    if idxs.len() == 0 {
        Ok(Seq::empty())
    } else {
        match spec_entry_of(v, idxs[0]) {
            Err(e) => Err(e),
            Ok(en) => match spec_collect_entries(v, idxs.drop_first()) {
                Ok(rest) => Ok(seq![en] + rest),
                Err(e) => Err(e),
            },
        }
    }
}

/// The provider reply spelled by a document's elements: the first
/// `interface-response` element anywhere, its first `errors` child read as
/// texts, and its first `responses` child read as change records.
pub open spec fn spec_extract(v: Seq<XmlNodeView>) -> Result<ProviderResponseView, ParseError> {
    match spec_find_tag_from(v, 0, "interface-response"@) {
        None => Err(ParseError::RootMissing),
        Some(root) => match spec_find_child_tag(v, root, "errors"@) {
            None => Err(ParseError::ErrorsMissing),
            Some(e) => match spec_collect_texts(v, spec_child_indices(v, e)) {
                Err(pe) => Err(pe),
                Ok(errs) => match spec_find_child_tag(v, root, "responses"@) {
                    None => Err(ParseError::ResponsesMissing),
                    Some(rs) => match spec_collect_entries(v, spec_child_indices(v, rs)) {
                        Err(pe) => Err(pe),
                        Ok(ents) => Ok(ProviderResponseView { errors: errs, entries: ents }),
                    },
                },
            },
        },
    }
}

/// Finds the first child of `i` bearing `tag`.
fn find_child_tag(nodes: &Vec<XmlNode>, i: usize, tag: &String) -> (r: Option<usize>)
    requires
        i < nodes@.len(),
    ensures
        match r {
            Some(j) => i < j < nodes@.len() && spec_find_child_tag(
                nodes_view(nodes@),
                i as int,
                tag@,
            ) == Some(j as int),
            None => spec_find_child_tag(nodes_view(nodes@), i as int, tag@) is None,
        },
{
    let ghost v = nodes_view(nodes@);
    let end = subtree_end(nodes, i);
    let d = nodes[i].depth;
    proof {
        assert(v[i as int] == nodes@[i as int]@);
    }
    let mut j: usize = i + 1;
    while j < end
        invariant
            i < j,
            j <= end,
            i < nodes@.len(),
            end == spec_subtree_end(v, i as int),
            end <= nodes@.len(),
            v == nodes_view(nodes@),
            d as nat == v[i as int].depth,
            spec_find_child_tag(v, i as int, tag@) == spec_find_child_tag_from(
                v,
                i as int,
                j as int,
                tag@,
            ),
        decreases end - j,
    {
        proof {
            assert(v[j as int] == nodes@[j as int]@);
        }
        if nodes[j].depth >= 1 && nodes[j].depth - 1 == d && nodes[j].tag == *tag {
            proof {
                assert(v[j as int].depth == v[i as int].depth + 1);
            }
            return Some(j);
        }
        j = j + 1;
    }
    proof {
        assert(spec_find_child_tag_from(v, i as int, j as int, tag@) is None);
    }
    None
}

/// Reads the texts of all children of `e`, all-or-nothing.
fn collect_child_texts(nodes: &Vec<XmlNode>, e: usize) -> (r: Result<Vec<String>, ParseError>)
    requires
        e < nodes@.len(),
    ensures
        match r {
            Ok(texts) => spec_collect_texts(
                nodes_view(nodes@),
                spec_child_indices(nodes_view(nodes@), e as int),
            ) == Ok::<Seq<Seq<char>>, ParseError>(strings_view(texts@)),
            Err(pe) => spec_collect_texts(
                nodes_view(nodes@),
                spec_child_indices(nodes_view(nodes@), e as int),
            ) == Err::<Seq<Seq<char>>, ParseError>(pe),
        },
{
    let ghost v = nodes_view(nodes@);
    let ghost idxs = spec_child_indices(v, e as int);
    let kids = child_elements(nodes, e);
    let mut out: Vec<String> = Vec::new();
    let mut k: usize = 0;
    proof {
        assert(idxs.skip(0) =~= idxs);
        assert(strings_view(out@) =~= Seq::<Seq<char>>::empty());
        match spec_collect_texts(v, idxs) {
            Ok(rest) => {
                assert(strings_view(out@) + rest =~= rest);
            },
            Err(_) => {},
        }
    }
    while k < kids.len()
        invariant
            k <= kids@.len(),
            v == nodes_view(nodes@),
            idxs == spec_child_indices(v, e as int),
            kids@.map_values(|x: usize| x as int) == idxs,
            forall|m: int| 0 <= m < kids@.len() ==> #[trigger] kids@[m] < nodes@.len(),
            match spec_collect_texts(v, idxs.skip(k as int)) {
                Ok(rest) => spec_collect_texts(v, idxs) == Ok::<Seq<Seq<char>>, ParseError>(
                    strings_view(out@) + rest,
                ),
                Err(pe) => spec_collect_texts(v, idxs) == Err::<Seq<Seq<char>>, ParseError>(pe),
            },
        decreases kids@.len() - k,
    {
        let j = kids[k];
        let ghost rem = idxs.skip(k as int);
        proof {
            assert(idxs[k as int] == kids@[k as int] as int);
            assert(rem[0] == idxs[k as int]);
            assert(rem.drop_first() =~= idxs.skip(k as int + 1));
            assert(v[j as int] == nodes@[j as int]@);
        }
        match &nodes[j].text {
            None => {
                proof {
                    assert(spec_collect_texts(v, rem) == Err::<Seq<Seq<char>>, ParseError>(
                        ParseError::ErrorTextMissing,
                    ));
                }
                return Err(ParseError::ErrorTextMissing);
            },
            Some(t) => {
                let ghost old_out = out@;
                out.push(t.clone());
                proof {
                    assert(strings_view(out@) =~= strings_view(old_out) + seq![t@]);
                    match spec_collect_texts(v, idxs.skip(k as int + 1)) {
                        Ok(rest) => {
                            assert(spec_collect_texts(v, rem) == Ok::<Seq<Seq<char>>, ParseError>(
                                seq![t@] + rest,
                            ));
                            assert(strings_view(old_out) + (seq![t@] + rest) =~= strings_view(out@)
                                + rest);
                        },
                        Err(_) => {},
                    }
                }
            },
        }
        k = k + 1;
    }
    proof {
        assert(idxs.skip(k as int) =~= Seq::<int>::empty());
        assert(spec_collect_texts(v, idxs.skip(k as int)) == Ok::<Seq<Seq<char>>, ParseError>(
            Seq::empty(),
        ));
        assert(strings_view(out@) + Seq::<Seq<char>>::empty() =~= strings_view(out@));
    }
    Ok(out)
}

/// Reads the change record spelled by the element at `j`.
fn extract_entry(nodes: &Vec<XmlNode>, j: usize) -> (r: Result<ResponseEntry, ParseError>)
    requires
        j < nodes@.len(),
    ensures
        match r {
            Ok(en) => spec_entry_of(nodes_view(nodes@), j as int) == Ok::<
                ResponseEntryView,
                ParseError,
            >(en@),
            Err(pe) => spec_entry_of(nodes_view(nodes@), j as int) == Err::<
                ResponseEntryView,
                ParseError,
            >(pe),
        },
{
    let ghost v = nodes_view(nodes@);
    let d = match find_child_tag(nodes, j, &String::from_str("Description")) {
        None => {
            return Err(ParseError::EntryElemMissing);
        },
        Some(d) => d,
    };
    proof {
        assert(v[d as int] == nodes@[d as int]@);
    }
    let description = match &nodes[d].text {
        None => {
            return Err(ParseError::EntryTextMissing);
        },
        Some(t) => t.clone(),
    };
    let n = match find_child_tag(nodes, j, &String::from_str("ResponseNumber")) {
        None => {
            return Err(ParseError::EntryElemMissing);
        },
        Some(n) => n,
    };
    proof {
        assert(v[n as int] == nodes@[n as int]@);
    }
    let number = match &nodes[n].text {
        None => {
            return Err(ParseError::EntryTextMissing);
        },
        Some(t) => t.clone(),
    };
    Ok(ResponseEntry { description, number })
}

/// Reads the change records of all children of `rs`, all-or-nothing.
fn collect_child_entries(nodes: &Vec<XmlNode>, rs: usize) -> (r: Result<
    Vec<ResponseEntry>,
    ParseError,
>)
    requires
        rs < nodes@.len(),
    ensures
        match r {
            Ok(ents) => spec_collect_entries(
                nodes_view(nodes@),
                spec_child_indices(nodes_view(nodes@), rs as int),
            ) == Ok::<Seq<ResponseEntryView>, ParseError>(entries_view(ents@)),
            Err(pe) => spec_collect_entries(
                nodes_view(nodes@),
                spec_child_indices(nodes_view(nodes@), rs as int),
            ) == Err::<Seq<ResponseEntryView>, ParseError>(pe),
        },
{
    let ghost v = nodes_view(nodes@);
    let ghost idxs = spec_child_indices(v, rs as int);
    let kids = child_elements(nodes, rs);
    let mut out: Vec<ResponseEntry> = Vec::new();
    let mut k: usize = 0;
    proof {
        assert(idxs.skip(0) =~= idxs);
        assert(entries_view(out@) =~= Seq::<ResponseEntryView>::empty());
        match spec_collect_entries(v, idxs) {
            Ok(rest) => {
                assert(entries_view(out@) + rest =~= rest);
            },
            Err(_) => {},
        }
    }
    while k < kids.len()
        invariant
            k <= kids@.len(),
            v == nodes_view(nodes@),
            idxs == spec_child_indices(v, rs as int),
            kids@.map_values(|x: usize| x as int) == idxs,
            forall|m: int| 0 <= m < kids@.len() ==> #[trigger] kids@[m] < nodes@.len(),
            match spec_collect_entries(v, idxs.skip(k as int)) {
                Ok(rest) => spec_collect_entries(v, idxs) == Ok::<
                    Seq<ResponseEntryView>,
                    ParseError,
                >(entries_view(out@) + rest),
                Err(pe) => spec_collect_entries(v, idxs) == Err::<
                    Seq<ResponseEntryView>,
                    ParseError,
                >(pe),
            },
        decreases kids@.len() - k,
    {
        let j = kids[k];
        let ghost rem = idxs.skip(k as int);
        proof {
            assert(idxs[k as int] == kids@[k as int] as int);
            assert(rem[0] == idxs[k as int]);
            assert(rem.drop_first() =~= idxs.skip(k as int + 1));
        }
        match extract_entry(nodes, j) {
            Err(pe) => {
                proof {
                    assert(spec_collect_entries(v, rem) == Err::<
                        Seq<ResponseEntryView>,
                        ParseError,
                    >(pe));
                }
                return Err(pe);
            },
            Ok(en) => {
                let ghost old_out = out@;
                let ghost env = en@;
                out.push(en);
                proof {
                    assert(entries_view(out@) =~= entries_view(old_out) + seq![env]);
                    match spec_collect_entries(v, idxs.skip(k as int + 1)) {
                        Ok(rest) => {
                            assert(spec_collect_entries(v, rem) == Ok::<
                                Seq<ResponseEntryView>,
                                ParseError,
                            >(seq![env] + rest));
                            assert(entries_view(old_out) + (seq![env] + rest) =~= entries_view(out@)
                                + rest);
                        },
                        Err(_) => {},
                    }
                }
            },
        }
        k = k + 1;
    }
    proof {
        assert(idxs.skip(k as int) =~= Seq::<int>::empty());
        assert(spec_collect_entries(v, idxs.skip(k as int)) == Ok::<
            Seq<ResponseEntryView>,
            ParseError,
        >(Seq::empty()));
        assert(entries_view(out@) + Seq::<ResponseEntryView>::empty() =~= entries_view(out@));
    }
    Ok(out)
}

/// Reads a parsed document as a provider reply, all-or-nothing.
pub fn extract_response(nodes: &Vec<XmlNode>) -> (r: Result<ProviderResponse, ParseError>)
    ensures
        match r {
            Ok(pr) => spec_extract(nodes_view(nodes@)) == Ok::<ProviderResponseView, ParseError>(
                pr@,
            ),
            Err(pe) => spec_extract(nodes_view(nodes@)) == Err::<ProviderResponseView, ParseError>(
                pe,
            ),
        },
{
    let root = match find_tag_from(nodes, 0, &String::from_str("interface-response")) {
        None => {
            return Err(ParseError::RootMissing);
        },
        Some(root) => root,
    };
    let e = match find_child_tag(nodes, root, &String::from_str("errors")) {
        None => {
            return Err(ParseError::ErrorsMissing);
        },
        Some(e) => e,
    };
    let errors = match collect_child_texts(nodes, e) {
        Err(pe) => {
            return Err(pe);
        },
        Ok(errors) => errors,
    };
    let rs = match find_child_tag(nodes, root, &String::from_str("responses")) {
        None => {
            return Err(ParseError::ResponsesMissing);
        },
        Some(rs) => rs,
    };
    let entries = match collect_child_entries(nodes, rs) {
        Err(pe) => {
            return Err(pe);
        },
        Ok(entries) => entries,
    };
    Ok(ProviderResponse { errors, entries })
}

/// What one update cycle came to.
#[derive(Debug, Clone, PartialEq, Eq)]
pub enum CycleOutcome {
    /// The provider reported no error; its change records, in document order.
    Success { entries: Vec<ResponseEntry> },
    /// The provider reported at least one error, beside whatever change
    /// records its reply carried.
    ProviderError { errors: Vec<String>, entries: Vec<ResponseEntry> },
    /// The reply never arrived in readable shape: a non-OK status, ill-formed
    /// XML, or a document without the expected structure.
    TransportError { message: String },
}

/// The mathematical value of a [`CycleOutcome`].
pub enum CycleOutcomeView {
    Success { entries: Seq<ResponseEntryView> },
    ProviderError { errors: Seq<Seq<char>>, entries: Seq<ResponseEntryView> },
    TransportError { message: Seq<char> },
}

impl View for CycleOutcome {
    type V = CycleOutcomeView;

    open spec fn view(&self) -> CycleOutcomeView {
        match self {
            CycleOutcome::Success { entries } => CycleOutcomeView::Success {
                entries: entries_view(entries@),
            },
            CycleOutcome::ProviderError { errors, entries } => CycleOutcomeView::ProviderError {
                errors: strings_view(errors@),
                entries: entries_view(entries@),
            },
            CycleOutcome::TransportError { message } => CycleOutcomeView::TransportError {
                message: message@,
            },
        }
    }
}

/// How a reply that read whole is classified: any provider-reported error
/// makes the outcome a provider error, whatever the change records hold;
/// otherwise the cycle succeeded.
pub open spec fn spec_classify(pr: ProviderResponseView) -> CycleOutcomeView {
    if pr.errors.len() > 0 {
        CycleOutcomeView::ProviderError { errors: pr.errors, entries: pr.entries }
    } else {
        CycleOutcomeView::Success { entries: pr.entries }
    }
}

/// Classifies a reply that read whole.
pub fn classify(resp: ProviderResponse) -> (r: CycleOutcome)
    ensures
        r@ == spec_classify(resp@),
{
    if resp.errors.len() > 0 {
        CycleOutcome::ProviderError { errors: resp.errors, entries: resp.entries }
    } else {
        CycleOutcome::Success { entries: resp.entries }
    }
}

/// The outcome spelled by a well-formed document's elements: the classified
/// reply, or a transport-class failure wearing the parse failure's wording.
pub open spec fn spec_outcome_of(v: Seq<XmlNodeView>) -> CycleOutcomeView {
    match spec_extract(v) {
        Ok(pr) => spec_classify(pr),
        Err(pe) => CycleOutcomeView::TransportError { message: spec_parse_error_message(pe) },
    }
}

/// The wording of the failure reported for a non-OK HTTP status.
pub open spec fn spec_non_ok_message(status: nat) -> Seq<char> {
    "non-ok response, got "@ + spec_dec_digits(status)
}

/// Interprets one HTTP reply: a non-OK status is a transport failure naming
/// the status and the body is never read; otherwise the body must parse as
/// XML and read whole as a provider reply, which is then classified.
pub fn interpret(status: u16, body: &str) -> (r: CycleOutcome)
    ensures
        status != 200 ==> r@ == (CycleOutcomeView::TransportError {
            message: spec_non_ok_message(status as nat),
        }),
        status == 200 ==> match doc_elements(body@) {
            Some(v) => r@ == spec_outcome_of(v),
            None => r@ is TransportError,
        },
{
    if status != 200 {
        let mut message = String::from_str("non-ok response, got ");
        append_decimal(&mut message, status);
        return CycleOutcome::TransportError { message };
    }
    match parse_xml_elements(body) {
        Err(message) => CycleOutcome::TransportError { message },
        Ok(nodes) => match extract_response(&nodes) {
            Err(pe) => CycleOutcome::TransportError { message: pe.message() },
            Ok(pr) => classify(pr),
        },
    }
}

/// One change record's report wording.
pub open spec fn spec_format_entry(e: ResponseEntryView) -> Seq<char> {
    "["@ + e.number + "] "@ + e.description
}

/// The report wording of each change record, in order.
pub open spec fn spec_format_entries(es: Seq<ResponseEntryView>) -> Seq<Seq<char>> {
    es.map_values(|e: ResponseEntryView| spec_format_entry(e))
}

/// One cycle's report line: the change records on success, the provider's own
/// words first on a provider error, the failure's message otherwise.
pub open spec fn spec_report_line(o: CycleOutcomeView) -> Seq<char> {
    match o {
        CycleOutcomeView::Success { entries } => "responses: "@ + spec_join(
            spec_format_entries(entries),
            ", "@,
        ),
        CycleOutcomeView::ProviderError { errors, entries } => "errors: "@ + spec_join(
            errors,
            ", "@,
        ) + ", responses: "@ + spec_join(spec_format_entries(entries), ", "@),
        CycleOutcomeView::TransportError { message } => message,
    }
}

/// Words one change record for the report.
fn format_entry(e: &ResponseEntry) -> (r: String)
    ensures
        r@ == spec_format_entry(e@),
{
    let mut s = String::from_str("[");
    s.append(e.number.as_str());
    s.append("] ");
    s.append(e.description.as_str());
    s
}

/// Words every change record for the report, in order.
fn format_entries(entries: &Vec<ResponseEntry>) -> (r: Vec<String>)
    ensures
        strings_view(r@) == spec_format_entries(entries_view(entries@)),
{
    let mut out: Vec<String> = Vec::new();
    let mut i: usize = 0;
    while i < entries.len()
        invariant
            i <= entries@.len(),
            strings_view(out@) =~= spec_format_entries(entries_view(entries@)).take(i as int),
        decreases entries@.len() - i,
    {
        let ghost old_out = out@;
        let line = format_entry(&entries[i]);
        let ghost lv = line@;
        out.push(line);
        proof {
            assert(entries_view(entries@)[i as int] == entries@[i as int]@);
            assert(strings_view(out@) =~= strings_view(old_out) + seq![lv]);
            assert(strings_view(out@) =~= spec_format_entries(entries_view(entries@)).take(
                i as int + 1,
            ));
        }
        i = i + 1;
    }
    proof {
        assert(spec_format_entries(entries_view(entries@)).take(i as int) =~= spec_format_entries(
            entries_view(entries@),
        ));
    }
    out
}

/// Words one cycle's outcome as a single report line.
pub fn report_line(outcome: &CycleOutcome) -> (r: String)
    ensures
        r@ == spec_report_line(outcome@),
{
    match outcome {
        CycleOutcome::Success { entries } => {
            let mut s = String::from_str("responses: ");
            let parts = format_entries(entries);
            s.append(join_strings(&parts, ", ").as_str());
            s
        },
        CycleOutcome::ProviderError { errors, entries } => {
            let mut s = String::from_str("errors: ");
            s.append(join_strings(errors, ", ").as_str());
            s.append(", responses: ");
            let parts = format_entries(entries);
            s.append(join_strings(&parts, ", ").as_str());
            s
        },
        CycleOutcome::TransportError { message } => message.clone(),
    }
}

/// With no provider-reported errors, a reply that reads whole is classified a
/// success carrying exactly the parsed change records, in document order.
pub proof fn lemma_success_keeps_entries(v: Seq<XmlNodeView>, pr: ProviderResponseView)
    requires
        spec_extract(v) == Ok::<ProviderResponseView, ParseError>(pr),
        pr.errors.len() == 0,
    ensures
        spec_outcome_of(v) == (CycleOutcomeView::Success { entries: pr.entries }),
{
}

/// One or more provider-reported errors dominate: the outcome is a provider
/// error, whatever change records the reply also carried.
pub proof fn lemma_errors_dominate(v: Seq<XmlNodeView>, pr: ProviderResponseView)
    requires
        spec_extract(v) == Ok::<ProviderResponseView, ParseError>(pr),
        pr.errors.len() >= 1,
    ensures
        spec_outcome_of(v) == (CycleOutcomeView::ProviderError {
            errors: pr.errors,
            entries: pr.entries,
        }),
{
}

/// The failure reported for a non-OK status carries the status's decimal
/// digits. Together with the interpreter's contract, which for such a status
/// fixes the outcome from the status alone, this is the whole of what a
/// non-OK reply comes to: the body plays no part.
pub proof fn lemma_non_ok_message_names_status(status: u16)
    ensures
        spec_contains_seq(spec_non_ok_message(status as nat), spec_dec_digits(status as nat)),
{
    let prefix = "non-ok response, got "@;
    let digits = spec_dec_digits(status as nat);
    lemma_concat_contains_middle(prefix, digits, Seq::empty());
    assert(prefix + digits + Seq::empty() =~= spec_non_ok_message(status as nat));
}

/// A reply that reads whole has exactly one change record per child of its
/// `responses` block: with an empty `errors` block this makes the outcome a
/// success carrying one entry per record element, in document order.
pub proof fn lemma_one_entry_per_child(v: Seq<XmlNodeView>, idxs: Seq<int>)
    ensures
        spec_collect_entries(v, idxs) matches Ok(es) ==> es.len() == idxs.len(),
    decreases idxs.len(),
{
    if idxs.len() == 0 {
    } else {
        lemma_one_entry_per_child(v, idxs.drop_first());
    }
}

/// A record whose change failed to read fails the whole collection.
proof fn lemma_entry_err_fails_collection(v: Seq<XmlNodeView>, idxs: Seq<int>, c: int)
    requires
        idxs.contains(c),
        spec_entry_of(v, c) is Err,
    ensures
        spec_collect_entries(v, idxs) is Err,
    decreases idxs.len(),
{
    if idxs[0] == c {
    } else {
        let k = choose|k: int| 0 <= k < idxs.len() && idxs[k] == c;
        assert(idxs.drop_first()[k - 1] == c);
        assert(idxs.drop_first().contains(c));
        lemma_entry_err_fails_collection(v, idxs.drop_first(), c);
    }
}

/// A change record missing its `Description` child or its `ResponseNumber`
/// child fails the whole reply: reading aborts and no partial record list is
/// ever returned.
pub proof fn lemma_missing_entry_field_aborts(v: Seq<XmlNodeView>, root: int, rs: int, c: int)
    requires
        spec_find_tag_from(v, 0, "interface-response"@) == Some(root),
        spec_find_child_tag(v, root, "responses"@) == Some(rs),
        spec_is_child(v, rs, c),
        spec_find_child_tag(v, c, "Description"@) is None || spec_find_child_tag(
            v,
            c,
            "ResponseNumber"@,
        ) is None,
    ensures
        spec_extract(v) is Err,
{
    crate::xml::lemma_find_tag_from_bounds(v, 0, "interface-response"@);
    crate::xml::lemma_find_child_tag_from_is_child(v, root, root + 1, "responses"@);
    match spec_find_child_tag(v, root, "errors"@) {
        None => {},
        Some(e) => {
            match spec_collect_texts(v, spec_child_indices(v, e)) {
                Err(_) => {},
                Ok(_) => {
                    assert(spec_entry_of(v, c) is Err);
                    crate::xml::lemma_child_in_indices(v, rs, rs + 1, c);
                    lemma_entry_err_fails_collection(v, spec_child_indices(v, rs), c);
                },
            }
        },
    }
}

} // verus!


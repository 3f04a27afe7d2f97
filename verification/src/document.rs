//! The output document as a state machine.
//!
//! A document holds pages and a page holds fragments. [`doc`] takes the
//! state and one action, checks that the action is allowed in that state,
//! and either refuses it, leaving the state as it was, or moves to the next
//! state and says what has to happen to the sink. The markup that belongs to
//! a page collects in the state's buffer and leaves it when the page ends.
//! The sink itself is the caller's: the state only records whether one is
//! attached.

use vstd::prelude::*;
use vstd::string::*;
use vstd::utf8::encode_utf8;
use crate::params::{param_value, pget};
use crate::text::{decimal, push_decimal};

verus! {

/// An action on the output document.
#[derive(Clone, Copy, Debug)]
pub enum DocAct<'a> {
    /// Start a new document: the path of the sink and a comment.
    DocOpenPathComment(&'a str, &'a str),
    /// Start a new page, with a comment.
    PageStartComment(&'a str),
    /// Add a fragment to the open page. The content is taken as it is.
    PageAddFragment(&'a str),
    /// Close the open page and hand its markup out.
    PageEnd,
    /// Close the document and hand its footer out.
    DocClose,
}

/// Why an action was refused.
#[derive(Clone, Copy, Debug, PartialEq, Eq, Structural)]
pub enum DocError {
    /// A document can only be opened from the initial state.
    NotInitial,
    /// The action needs an open document.
    NoDocument,
    /// The action needs that no page is open.
    PageOpen,
    /// The action needs an open page.
    NoPage,
    /// A page can only end after it got a fragment.
    EmptyPage,
    /// A document can only close after it got a page.
    NoPages,
    /// A document can only close when nothing waits in the buffer.
    PendingOutput,
    /// The action writes, and no sink is attached.
    NoSink,
    /// The page or fragment counter cannot count further.
    CounterOverflow,
}

/// What the caller has to do with the sink after an action.
#[derive(Clone, Copy, Debug, PartialEq, Eq, Structural)]
pub enum SinkAct {
    /// Create the sink at the document's path and open it for writing.
    Open,
    /// Nothing.
    Keep,
    /// Write the bytes handed out.
    Write,
    /// Write the bytes handed out, persist the sink and release it.
    WriteAndClose,
}

/// The outcome of an accepted action.
#[derive(Debug)]
pub struct DocOutput {
    pub sink: SinkAct,
    /// The bytes to write; empty unless `sink` asks for a write.
    pub bytes: Vec<u8>,
}

/// The state of the output document.
#[derive(Debug)]
pub struct DocState {
    /// inside a document
    pub indoc: bool,
    /// inside a page
    pub inpage: bool,
    /// number of the current page
    pub page_no: usize,
    /// number of the current fragment in the page
    pub frag_no: usize,
    /// markup that waits to be written
    pub buf: Vec<u8>,
    /// whether a sink is attached
    pub sink: bool,
}

/// The document state as a mathematical value.
pub struct DocModel {
    pub indoc: bool,
    pub inpage: bool,
    pub page_no: nat,
    pub frag_no: nat,
    pub buf: Seq<u8>,
    pub sink: bool,
}

/// An accepted action as a mathematical value: the state it leads to, and
/// what it hands out.
pub struct DocStep {
    pub next: DocModel,
    pub sink: SinkAct,
    pub bytes: Seq<u8>,
}

impl View for DocState {
    type V = DocModel;

    open spec fn view(&self) -> DocModel {
        DocModel {
            indoc: self.indoc,
            inpage: self.inpage,
            page_no: self.page_no as nat,
            frag_no: self.frag_no as nat,
            buf: self.buf@,
            sink: self.sink,
        }
    }
}

/// The state before any document: nothing open, counters at zero, nothing
/// buffered, no sink.
pub open spec fn initial() -> DocModel {
    DocModel { indoc: false, inpage: false, page_no: 0, frag_no: 0, buf: Seq::empty(), sink: false }
}

/// The header of a document.
pub open spec fn doc_head(path: Seq<char>, comment: Seq<char>) -> Seq<char> {
    "<!-- "@ + path + "\n     "@ + comment
        + " -->\n<svg\n    xmlns=\"http://www.w3.org/2000/svg\"\n    version=\"1.2\"\n    width=\""@
        + param_value("pagewidth"@) + "in\"\n    height=\""@ + param_value("pageheight"@)
        + "in\"\n>\n<pageSet>\n\n"@
}

/// The header of page `page_no`.
pub open spec fn page_head(page_no: nat, comment: Seq<char>) -> Seq<char> {
    "<page>\n<!-- begin page "@ + decimal(page_no) + "\n     "@ + comment + " -->\n"@
}

/// The header of fragment `frag_no` of page `page_no`.
pub open spec fn frag_head(page_no: nat, frag_no: nat) -> Seq<char> {
    "\n<!-- page "@ + decimal(page_no) + " fragment "@ + decimal(frag_no) + " -->\n"@
}

/// The footer of page `page_no`.
pub open spec fn page_foot(page_no: nat) -> Seq<char> {
    "\n</page>\n<!-- end page "@ + decimal(page_no) + " -->\n\n"@
}

/// The footer of a document.
pub open spec fn doc_foot() -> Seq<char> {
    "</pageSet>\n</svg>\n"@
}

/// The transition function: what `act` does in state `s`.
///
/// The conditions of an action are tested in a fixed order, and the first
/// one that fails names the error.
pub open spec fn doc_step(s: DocModel, act: DocAct) -> Result<DocStep, DocError> {
    match act {
        DocAct::DocOpenPathComment(path, comment) => {
            if s != initial() {
                Err(DocError::NotInitial)
            } else {
                Ok(
                    DocStep {
                        next: DocModel {
                            indoc: true,
                            sink: true,
                            buf: encode_utf8(doc_head(path@, comment@)),
                            ..s
                        },
                        sink: SinkAct::Open,
                        bytes: Seq::empty(),
                    },
                )
            }
        },
        DocAct::PageStartComment(comment) => {
            if !s.indoc {
                Err(DocError::NoDocument)
            } else if s.inpage {
                Err(DocError::PageOpen)
            } else if s.page_no >= usize::MAX {
                Err(DocError::CounterOverflow)
            } else {
                Ok(
                    DocStep {
                        next: DocModel {
                            inpage: true,
                            page_no: s.page_no + 1,
                            frag_no: 0,
                            buf: s.buf + encode_utf8(page_head(s.page_no + 1, comment@)),
                            ..s
                        },
                        sink: SinkAct::Keep,
                        bytes: Seq::empty(),
                    },
                )
            }
        },
        DocAct::PageAddFragment(frag) => {
            if !s.inpage {
                Err(DocError::NoPage)
            } else if s.frag_no >= usize::MAX {
                Err(DocError::CounterOverflow)
            } else {
                Ok(
                    DocStep {
                        next: DocModel {
                            frag_no: s.frag_no + 1,
                            buf: s.buf + encode_utf8(frag_head(s.page_no, s.frag_no + 1))
                                + encode_utf8(frag@),
                            ..s
                        },
                        sink: SinkAct::Keep,
                        bytes: Seq::empty(),
                    },
                )
            }
        },
        DocAct::PageEnd => {
            if !s.indoc {
                Err(DocError::NoDocument)
            } else if !s.inpage {
                Err(DocError::NoPage)
            } else if s.frag_no == 0 {
                Err(DocError::EmptyPage)
            } else if !s.sink {
                Err(DocError::NoSink)
            } else {
                Ok(
                    DocStep {
                        next: DocModel { inpage: false, buf: Seq::empty(), ..s },
                        sink: SinkAct::Write,
                        bytes: s.buf + encode_utf8(page_foot(s.page_no)),
                    },
                )
            }
        },
        DocAct::DocClose => {
            if !s.indoc {
                Err(DocError::NoDocument)
            } else if s.inpage {
                Err(DocError::PageOpen)
            } else if s.page_no == 0 {
                Err(DocError::NoPages)
            } else if s.buf.len() != 0 {
                Err(DocError::PendingOutput)
            } else if !s.sink {
                Err(DocError::NoSink)
            } else {
                Ok(
                    DocStep {
                        next: initial(),
                        sink: SinkAct::WriteAndClose,
                        bytes: encode_utf8(doc_foot()),
                    },
                )
            }
        },
    }
}

impl DocModel {
    /// What holds of every state that the actions lead to from the initial
    /// one: a page is open only inside a document, and it has a number; a
    /// sink is attached exactly while a document is open; outside of a
    /// document the state is the initial one; and between two pages nothing
    /// waits in the buffer.
    pub open spec fn well_formed(self) -> bool {
        &&& self.inpage ==> self.indoc && self.page_no > 0
        &&& self.indoc == self.sink
        &&& !self.indoc ==> self.page_no == 0 && self.frag_no == 0 && self.buf.len() == 0
        &&& self.indoc && !self.inpage && self.page_no > 0 ==> self.buf.len() == 0
    }
}

/// The initial state is well formed, and an accepted action leads from a
/// well-formed state to a well-formed state.
pub proof fn lemma_step_keeps_well_formed(s: DocModel, act: DocAct)
    requires
        s.well_formed(),
    ensures
        initial().well_formed(),
        doc_step(s, act) matches Ok(step) ==> step.next.well_formed(),
{
}

/// In a well-formed state only the order of the actions and the reach of the
/// counters decide whether an action is accepted: a document opens when none
/// is open; a page starts inside a document when no page is open; a fragment
/// goes into an open page; a page ends when it is open and has a fragment;
/// a document closes when no page is open and it has had one.
pub proof fn lemma_accepted_actions(s: DocModel, act: DocAct)
    requires
        s.well_formed(),
    ensures
        doc_step(s, act) is Ok <==> match act {
            DocAct::DocOpenPathComment(_, _) => !s.indoc,
            DocAct::PageStartComment(_) => s.indoc && !s.inpage && s.page_no < usize::MAX,
            DocAct::PageAddFragment(_) => s.inpage && s.frag_no < usize::MAX,
            DocAct::PageEnd => s.inpage && s.frag_no > 0,
            DocAct::DocClose => s.indoc && !s.inpage && s.page_no > 0,
        },
{
    if !s.indoc {
        assert(s.buf =~= Seq::<u8>::empty());
        assert(s == initial());
    }
}

/// Ending a page while none is open is refused in every state, so also
/// before the first page was started; and closing the document while a page
/// is open is refused in every state.
pub proof fn lemma_misplaced_actions_fail(s: DocModel)
    ensures
        !s.inpage && s.indoc ==> doc_step(s, DocAct::PageEnd) == Err::<DocStep, DocError>(
            DocError::NoPage,
        ),
        !s.inpage && !s.indoc ==> doc_step(s, DocAct::PageEnd) == Err::<DocStep, DocError>(
            DocError::NoDocument,
        ),
        s.inpage && s.indoc ==> doc_step(s, DocAct::DocClose) == Err::<DocStep, DocError>(
            DocError::PageOpen,
        ),
        s.inpage && !s.indoc ==> doc_step(s, DocAct::DocClose) == Err::<DocStep, DocError>(
            DocError::NoDocument,
        ),
{
}

/// A fresh document state: the initial one.
pub fn doc_new() -> (ds: DocState)
    ensures
        ds@ == initial(),
{
    DocState { indoc: false, inpage: false, page_no: 0, frag_no: 0, buf: Vec::new(), sink: false }
}

/// Writes the header of a document.
fn doc_head_text(path: &str, comment: &str) -> (head: String)
    ensures
        head@ == doc_head(path@, comment@),
{
    let mut head = String::new();
    head.append("<!-- ");
    head.append(path);
    head.append("\n     ");
    head.append(comment);
    head.append(
        " -->\n<svg\n    xmlns=\"http://www.w3.org/2000/svg\"\n    version=\"1.2\"\n    width=\"",
    );
    head.append(pget("pagewidth"));
    head.append("in\"\n    height=\"");
    head.append(pget("pageheight"));
    head.append("in\"\n>\n<pageSet>\n\n");
    assert(head@ =~= doc_head(path@, comment@));
    head
}

/// Writes the header of a page.
fn page_head_text(page_no: usize, comment: &str) -> (head: String)
    ensures
        head@ == page_head(page_no as nat, comment@),
{
    let mut head = String::new();
    head.append("<page>\n<!-- begin page ");
    push_decimal(&mut head, page_no);
    head.append("\n     ");
    head.append(comment);
    head.append(" -->\n");
    assert(head@ =~= page_head(page_no as nat, comment@));
    head
}

/// Writes the header of a fragment.
fn frag_head_text(page_no: usize, frag_no: usize) -> (head: String)
    ensures
        head@ == frag_head(page_no as nat, frag_no as nat),
{
    let mut head = String::new();
    head.append("\n<!-- page ");
    push_decimal(&mut head, page_no);
    head.append(" fragment ");
    push_decimal(&mut head, frag_no);
    head.append(" -->\n");
    assert(head@ =~= frag_head(page_no as nat, frag_no as nat));
    head
}

/// Writes the footer of a page.
fn page_foot_text(page_no: usize) -> (foot: String)
    ensures
        foot@ == page_foot(page_no as nat),
{
    let mut foot = String::new();
    foot.append("\n</page>\n<!-- end page ");
    push_decimal(&mut foot, page_no);
    foot.append(" -->\n\n");
    assert(foot@ =~= page_foot(page_no as nat));
    foot
}

/// Appends the bytes of `text` to `buf`.
fn emit(buf: &mut Vec<u8>, text: &str)
    ensures
        final(buf)@ == old(buf)@ + encode_utf8(text@),
{
    let mut bytes = text.as_bytes_vec();
    buf.append(&mut bytes);
}

/// Applies `doc_act` to the document state.
///
/// An action that is not allowed in the state is refused with the error that
/// `doc_step` names, and the state stays as it was. An allowed action moves
/// the state on and hands out what the sink is owed.
pub fn doc(ds: &mut DocState, doc_act: DocAct) -> (out: Result<DocOutput, DocError>)
    ensures
        match doc_step(old(ds)@, doc_act) {
            Ok(step) => {
                &&& out matches Ok(o)
                &&& o.sink == step.sink
                &&& o.bytes@ == step.bytes
                &&& final(ds)@ == step.next
            },
            Err(e) => out == Err::<DocOutput, DocError>(e) && *final(ds) == *old(ds),
        },
{
    match doc_act {
        DocAct::DocOpenPathComment(path, comment) => {
            if ds.indoc || ds.inpage || ds.page_no != 0 || ds.frag_no != 0 || ds.buf.len() != 0
                || ds.sink {
                return Err(DocError::NotInitial);
            }
            assert(ds.buf@ =~= Seq::<u8>::empty());
            let head = doc_head_text(path, comment);
            emit(&mut ds.buf, head.as_str());
            assert(ds.buf@ =~= encode_utf8(doc_head(path@, comment@)));
            ds.indoc = true;
            ds.sink = true;
            Ok(DocOutput { sink: SinkAct::Open, bytes: Vec::new() })
        },
        DocAct::PageStartComment(comment) => {
            if !ds.indoc {
                return Err(DocError::NoDocument);
            }
            if ds.inpage {
                return Err(DocError::PageOpen);
            }
            if ds.page_no == usize::MAX {
                return Err(DocError::CounterOverflow);
            }
            ds.page_no += 1;
            ds.frag_no = 0;
            let head = page_head_text(ds.page_no, comment);
            emit(&mut ds.buf, head.as_str());
            ds.inpage = true;
            Ok(DocOutput { sink: SinkAct::Keep, bytes: Vec::new() })
        },
        DocAct::PageAddFragment(frag) => {
            if !ds.inpage {
                return Err(DocError::NoPage);
            }
            if ds.frag_no == usize::MAX {
                return Err(DocError::CounterOverflow);
            }
            ds.frag_no += 1;
            let head = frag_head_text(ds.page_no, ds.frag_no);
            emit(&mut ds.buf, head.as_str());
            emit(&mut ds.buf, frag);
            Ok(DocOutput { sink: SinkAct::Keep, bytes: Vec::new() })
        },
        DocAct::PageEnd => {
            if !ds.indoc {
                return Err(DocError::NoDocument);
            }
            if !ds.inpage {
                return Err(DocError::NoPage);
            }
            if ds.frag_no == 0 {
                return Err(DocError::EmptyPage);
            }
            if !ds.sink {
                return Err(DocError::NoSink);
            }
            ds.inpage = false;
            let foot = page_foot_text(ds.page_no);
            emit(&mut ds.buf, foot.as_str());
            let mut bytes: Vec<u8> = Vec::new();
            bytes.append(&mut ds.buf);
            assert(bytes@ =~= old(ds).buf@ + encode_utf8(page_foot(ds.page_no as nat)));
            Ok(DocOutput { sink: SinkAct::Write, bytes })
        },
        DocAct::DocClose => {
            if !ds.indoc {
                return Err(DocError::NoDocument);
            }
            if ds.inpage {
                return Err(DocError::PageOpen);
            }
            if ds.page_no == 0 {
                return Err(DocError::NoPages);
            }
            if ds.buf.len() != 0 {
                return Err(DocError::PendingOutput);
            }
            if !ds.sink {
                return Err(DocError::NoSink);
            }
            let mut bytes: Vec<u8> = Vec::new();
            emit(&mut bytes, "</pageSet>\n</svg>\n");
            assert(bytes@ =~= encode_utf8(doc_foot()));
            assert(ds.buf@ =~= Seq::<u8>::empty());
            ds.indoc = false;
            ds.page_no = 0;
            ds.frag_no = 0;
            ds.sink = false;
            Ok(DocOutput { sink: SinkAct::WriteAndClose, bytes })
        },
    }
}

} // verus!

//! The search handler: digests one finished search invocation.
//!
//! The invocation itself — spawning the search tool and capturing its
//! streams — happens outside the library; the handler receives the outcome
//! as plain values, classifies it, parses the capture, and renders the
//! result.

use crate::search_match::{
    block_error_kind, block_record, block_well_formed, first_bad_block, parse, raw_blocks,
    ParseError, SearchMatch,
};
use crate::text::joined;
use crate::search_status::{status_of, status_text, SearchStatus};
use vstd::prelude::*;

verus! {

/// One search: what was asked, how it ended, and what it found.
pub struct SearchHandler {
    pub search_status: SearchStatus,
    pub search_matches: Option<Vec<SearchMatch>>,
    pub glob: String,
    pub search_term: String,
}

/// The records a well-formed capture parses to, in emitted order.
pub open spec fn records_of(ms: Seq<SearchMatch>, raw: Seq<char>) -> bool {
    &&& first_bad_block(raw_blocks(raw), 0) == raw_blocks(raw).len()
    &&& ms.len() == raw_blocks(raw).len()
    &&& forall|i: int|
        0 <= i < ms.len() ==> block_well_formed(#[trigger] raw_blocks(raw)[i]) && block_record(
            raw_blocks(raw)[i],
            ms[i],
        )
}

/// A capture holds a malformed block, and `e` reports the first one.
pub open spec fn parse_failure(e: ParseError, raw: Seq<char>) -> bool {
    let fb = first_bad_block(raw_blocks(raw), 0);
    &&& fb < raw_blocks(raw).len()
    &&& e.kind == block_error_kind(raw_blocks(raw)[fb])
    &&& e.block@ == joined(raw_blocks(raw)[fb])
}

impl SearchHandler {
    /// The glob pattern the handler was created with.
    pub open spec fn glob_view(&self) -> Seq<char> {
        self.glob@
    }

    /// The search term the handler was created with.
    pub open spec fn term_view(&self) -> Seq<char> {
        self.search_term@
    }

    /// The handler never reports `Found` without holding records.
    pub open spec fn wf(&self) -> bool {
        self.search_status == SearchStatus::Found ==> self.search_matches is Some
    }

    /// A fresh handler for one glob and term: nothing searched yet.
    pub fn new(glob: &str, search_term: &str) -> (r: SearchHandler)
        ensures
            r.search_status == SearchStatus::NotSearched,
            r.search_matches is None,
            r.glob_view() == glob@,
            r.term_view() == search_term@,
            r.wf(),
    {
        SearchHandler {
            search_status: SearchStatus::new(),
            search_matches: None,
            glob: glob.to_owned(),
            search_term: search_term.to_owned(),
        }
    }

    /// The glob pattern, for building the invocation.
    pub fn glob(&self) -> (r: &String)
        ensures
            r@ == self.glob_view(),
    {
        &self.glob
    }

    /// The search term, for building the invocation and the preview.
    pub fn search_term(&self) -> (r: &String)
        ensures
            r@ == self.term_view(),
    {
        &self.search_term
    }

    /// Parses a capture that reported matches and stores the records; a
    /// malformed capture is surfaced and leaves the handler unchanged.
    pub fn handle_search_hits(&mut self, result: &str) -> (r: Result<(), ParseError>)
        ensures
            final(self).search_status == old(self).search_status,
            final(self).glob_view() == old(self).glob_view(),
            final(self).term_view() == old(self).term_view(),
            match r {
                Ok(()) => final(self).search_matches matches Some(v) && records_of(v@, result@),
                Err(e) => parse_failure(e, result@) && *final(self) == *old(self),
            },
    {
        match parse(result) {
            Ok(v) => {
                self.search_matches = Some(v);
                Ok(())
            },
            Err(e) => Err(e),
        }
    }

    /// Digests one finished invocation, handed over as plain values: the
    /// exit status, whether stderr was empty, and the captured stdout.
    ///
    /// The status is set exactly as the outcome classifies; when matches
    /// were found the capture is parsed and stored.  A malformed capture is
    /// surfaced as the error and leaves the handler unchanged.
    pub fn search(&mut self, exit_success: bool, stderr_empty: bool, stdout: &str) -> (r: Result<
        SearchStatus,
        ParseError,
    >)
        ensures
            old(self).wf() ==> final(self).wf(),
            final(self).glob_view() == old(self).glob_view(),
            final(self).term_view() == old(self).term_view(),
            ({
                let st = status_of(exit_success, stderr_empty, stdout@.len() == 0);
                match r {
                    Ok(s) => {
                        &&& s == st
                        &&& final(self).wf()
                        &&& final(self).search_status == st
                        &&& if st == SearchStatus::Found {
                            final(self).search_matches matches Some(v) && records_of(v@, stdout@)
                        } else {
                            final(self).search_matches == old(self).search_matches
                        }
                    },
                    Err(e) => {
                        &&& st == SearchStatus::Found
                        &&& parse_failure(e, stdout@)
                        &&& *final(self) == *old(self)
                    },
                }
            }),
    {
        let status = SearchStatus::from_outcome(exit_success, stderr_empty, stdout.is_empty());
        if status == SearchStatus::Found {
            match self.handle_search_hits(stdout) {
                Ok(()) => {},
                Err(e) => {
                    return Err(e);
                },
            }
        }
        self.search_status = status;
        Ok(status)
    }

    /// The text after the i-th record of the listing: each record's content
    /// on its own line, opened by a blank line and the file path wherever
    /// the path changes from `prev`.
    pub open spec fn pf_entries(ms: Seq<SearchMatch>, i: int, prev: Seq<char>) -> Seq<char>
        decreases ms.len() - i,
    {
        if 0 <= i < ms.len() {
            (if ms[i].path@ != prev {
                seq!['\n'] + ms[i].path@ + seq![':', '\n']
            } else {
                Seq::<char>::empty()
            }) + ms[i].content@ + seq!['\n'] + Self::pf_entries(ms, i + 1, ms[i].path@)
        } else {
            Seq::<char>::empty()
        }
    }

    /// Renders the outcome as plain text: the status headline, and when
    /// matches were found a listing of every record in emitted order,
    /// grouped under a file heading wherever the path changes.
    pub fn pretty_formatted(&self) -> (r: String)
        requires
            self.wf(),
            self.search_status != SearchStatus::NotSearched,
        ensures
            self.search_status != SearchStatus::Found ==> r@ == status_text(self.search_status),
            self.search_status == SearchStatus::Found ==> (self.search_matches matches Some(v)
                && r@ == status_text(self.search_status) + Self::pf_entries(
                v@,
                0,
                Seq::<char>::empty(),
            )),
    {
        let mut out = self.search_status.get_status_string();
        if self.search_status == SearchStatus::Found {
            let ms: &Vec<SearchMatch> = self.search_matches.as_ref().unwrap();
            let ghost msv = ms@;
            let ghost head = status_text(self.search_status);
            let mut prev = String::new();
            let mut i: usize = 0;
            while i < ms.len()
                invariant
                    i <= msv.len(),
                    msv == ms@,
                    head + Self::pf_entries(msv, 0, Seq::<char>::empty()) == out@
                        + Self::pf_entries(msv, i as int, prev@),
                decreases msv.len() - i,
            {
                let ghost prev0 = prev@;
                if !(ms[i].path == prev) {
                    out.append("\n");
                    out.append(ms[i].path.as_str());
                    out.append(":\n");
                    prev = ms[i].path.clone();
                }
                out.append(ms[i].content.as_str());
                out.append("\n");
                proof {
                    reveal_strlit("\n");
                    reveal_strlit(":\n");
                    assert("\n"@ =~= seq!['\n']);
                    assert(":\n"@ =~= seq![':', '\n']);
                    assert(prev@ == msv[i as int].path@);
                    assert(out@ + Self::pf_entries(msv, i + 1, msv[i as int].path@) =~= head
                        + Self::pf_entries(msv, 0, Seq::<char>::empty()));
                }
                i += 1;
            }
        }
        out
    }
}

} // verus!

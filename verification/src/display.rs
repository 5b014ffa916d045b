//! The display-side helpers the executor and the file viewer rest on:
//! feature detection over a script's text, and the match-finding state of
//! the pager. Spawning processes and printing belong to the surrounding
//! program; everything here computes on plain values.
use vstd::prelude::*;
use vstd::string::*;

use crate::text::{contains_sub, lower_of, str_views};

verus! {

/// Traits of a script's text that decide how its run is displayed.
pub struct ScriptFeatures {
    pub has_package_manager: bool,
    pub package_manager: Option<String>,
    pub is_interactive: bool,
    pub has_file_output: bool,
    pub has_conditional_flow: bool,
    pub is_dangerous: bool,
    pub has_network_ops: bool,
}

impl Default for ScriptFeatures {
    /// No feature detected.
    fn default() -> (r: ScriptFeatures)
        ensures
            !r.has_package_manager,
            r.package_manager is None,
            !r.is_interactive,
            !r.has_file_output,
            !r.has_conditional_flow,
            !r.is_dangerous,
            !r.has_network_ops,
    {
        ScriptFeatures {
            has_package_manager: false,
            package_manager: None,
            is_interactive: false,
            has_file_output: false,
            has_conditional_flow: false,
            is_dangerous: false,
            has_network_ops: false,
        }
    }
}

/// Runs catalog scripts; the spawning itself happens outside, against
/// the working directory held here.
pub struct ScriptExecutor {
    toolbox_path: String,
}

impl View for ScriptExecutor {
    type V = Seq<char>;

    /// An executor is characterised by the directory its scripts run in.
    closed spec fn view(&self) -> Seq<char> {
        self.toolbox_path@
    }
}

impl ScriptExecutor {
    /// An executor that runs scripts in the given directory.
    pub fn new(toolbox_path: String) -> (r: ScriptExecutor)
        ensures
            r@ == toolbox_path@,
    {
        ScriptExecutor { toolbox_path }
    }

    /// Detects, from the text alone, which display conveniences a run
    /// calls for; this display-side check also looks for paging and
    /// network operations.
    pub fn detect_script_features(&self, content: &str) -> (r: ScriptFeatures)
        ensures
            r.has_package_manager == (contains_sub(content@, "apt "@) || contains_sub(
                content@,
                "apt-get "@,
            ) || contains_sub(content@, "yum "@) || contains_sub(content@, "dnf "@)),
            crate::models::opt_view(r.package_manager) == crate::scanner::spec_package_manager(
                content@,
            ),
            r.has_file_output == (contains_sub(content@, "cat "@) || contains_sub(
                content@,
                "tail "@,
            ) || contains_sub(content@, "less "@) || contains_sub(content@, "more "@)),
            r.is_interactive == (contains_sub(content@, "read "@) || contains_sub(
                content@,
                "dialog "@,
            ) || contains_sub(content@, "whiptail "@)),
            r.has_conditional_flow == (contains_sub(content@, "if "@) && contains_sub(
                content@,
                "then"@,
            )),
            r.is_dangerous == (contains_sub(content@, "rm -rf"@) || contains_sub(
                content@,
                "sudo rm"@,
            ) || contains_sub(content@, "format"@) || contains_sub(content@, "mkfs"@)
                || contains_sub(content@, "dd if="@) || contains_sub(content@, "fdisk"@)),
            r.has_network_ops == (contains_sub(content@, "curl "@) || contains_sub(
                content@,
                "wget "@,
            ) || contains_sub(content@, "ssh "@) || contains_sub(content@, "scp "@)),
    {
        let mut features = ScriptFeatures::default();
        if crate::text::contains_str(content, "apt ") || crate::text::contains_str(
            content,
            "apt-get ",
        ) {
            features.has_package_manager = true;
            features.package_manager = Some(String::from_str("apt"));
        } else if crate::text::contains_str(content, "yum ") || crate::text::contains_str(
            content,
            "dnf ",
        ) {
            features.has_package_manager = true;
            features.package_manager = Some(
                if crate::text::contains_str(content, "dnf ") {
                    String::from_str("dnf")
                } else {
                    String::from_str("yum")
                },
            );
        }
        if crate::text::contains_str(content, "cat ") || crate::text::contains_str(
            content,
            "tail ",
        ) || crate::text::contains_str(content, "less ") || crate::text::contains_str(
            content,
            "more ",
        ) {
            features.has_file_output = true;
        }
        if crate::text::contains_str(content, "read ") || crate::text::contains_str(
            content,
            "dialog ",
        ) || crate::text::contains_str(content, "whiptail ") {
            features.is_interactive = true;
        }
        if crate::text::contains_str(content, "if ") && crate::text::contains_str(
            content,
            "then",
        ) {
            features.has_conditional_flow = true;
        }
        if crate::text::contains_str(content, "rm -rf") || crate::text::contains_str(
            content,
            "sudo rm",
        ) || crate::text::contains_str(content, "format") || crate::text::contains_str(
            content,
            "mkfs",
        ) || crate::text::contains_str(content, "dd if=") || crate::text::contains_str(
            content,
            "fdisk",
        ) {
            features.is_dangerous = true;
        }
        if crate::text::contains_str(content, "curl ") || crate::text::contains_str(
            content,
            "wget ",
        ) || crate::text::contains_str(content, "ssh ") || crate::text::contains_str(
            content,
            "scp ",
        ) {
            features.has_network_ops = true;
        }
        features
    }
}

/// Whether a line holds the search term, both lowercased.
pub open spec fn line_matches(line: Seq<char>, term: Seq<char>) -> bool {
    contains_sub(lower_of(line), lower_of(term))
}

/// Where a backward scan starts: at the held position, clamped to the
/// line count in case the file shrank since the position was taken.
pub open spec fn scan_bound(line_number: int, count: int) -> int {
    if line_number <= count {
        line_number
    } else {
        count
    }
}

/// A pager over one file's lines with a case-insensitive search term and
/// a current position; reading the file happens outside and its lines
/// are handed in.
pub struct FileViewer {
    current_file: Option<String>,
    search_term: Option<String>,
    line_number: usize,
}

/// The mathematical value of the pager's state.
#[verifier::ext_equal]
pub ghost struct FileViewerV {
    pub current_file: Option<Seq<char>>,
    pub search_term: Option<Seq<char>>,
    pub line_number: int,
}

impl View for FileViewer {
    type V = FileViewerV;

    closed spec fn view(&self) -> FileViewerV {
        FileViewerV {
            current_file: crate::models::opt_view(self.current_file),
            search_term: crate::models::opt_view(self.search_term),
            line_number: self.line_number as int,
        }
    }
}

impl FileViewer {
    /// A pager with no file and no search yet, at the first line.
    pub fn new() -> (r: FileViewer)
        ensures
            r@.current_file is None,
            r@.search_term is None,
            r@.line_number == 0,
    {
        FileViewer { current_file: None, search_term: None, line_number: 0 }
    }

    /// Opens a file by path; the position is kept for match stepping.
    pub fn view_file(&mut self, path: String)
        ensures
            final(self)@ == (FileViewerV { current_file: Some(path@), ..old(self)@ }),
    {
        self.current_file = Some(path);
    }

    /// Sets the term that match stepping looks for.
    pub fn search_in_file(&mut self, term: String)
        ensures
            final(self)@ == (FileViewerV { search_term: Some(term@), ..old(self)@ }),
    {
        self.search_term = Some(term);
    }

    /// Steps to the next line after the current one that holds the term,
    /// case-insensitively, given the file's lines; without an open file
    /// and a term, or without a further match, nothing changes.
    pub fn next_match(&mut self, lines: &Vec<String>) -> (r: Option<usize>)
        ensures
            (old(self)@.current_file is None || old(self)@.search_term is None) ==> (final(self)@
                == old(self)@ && r is None),
            old(self)@.current_file is Some && old(self)@.search_term is Some ==> (match r {
                Some(i) => {
                    &&& old(self)@.line_number + 1 <= i < lines@.len()
                    &&& line_matches(str_views(lines@)[i as int], old(self)@.search_term->0)
                    &&& forall|j: int|
                        old(self)@.line_number + 1 <= j < i ==> !line_matches(
                            #[trigger] str_views(lines@)[j],
                            old(self)@.search_term->0,
                        )
                    &&& final(self)@ == (FileViewerV { line_number: i as int, ..old(self)@ })
                },
                None => {
                    &&& forall|j: int|
                        old(self)@.line_number + 1 <= j < lines@.len() ==> !line_matches(
                            #[trigger] str_views(lines@)[j],
                            old(self)@.search_term->0,
                        )
                    &&& final(self)@ == old(self)@
                },
            }),
    {
        if self.current_file.is_none() {
            return None;
        }
        let term = match &self.search_term {
            Some(t) => t,
            None => {
                return None;
            },
        };
        let tl = crate::text::lowercase(term.as_str());
        if self.line_number >= lines.len() {
            return None;
        }
        let mut i: usize = self.line_number + 1;
        while i < lines.len()
            invariant
                old(self)@.line_number + 1 <= i,
                self == old(self),
                old(self)@.current_file is Some,
                old(self)@.search_term is Some,
                tl@ == lower_of(old(self)@.search_term->0),
                forall|j: int|
                    old(self)@.line_number + 1 <= j < i ==> !line_matches(
                        #[trigger] str_views(lines@)[j],
                        old(self)@.search_term->0,
                    ),
            decreases lines.len() - i,
        {
            proof {
                assert(str_views(lines@)[i as int] == lines@[i as int]@);
            }
            let low = crate::text::lowercase(lines[i].as_str());
            if crate::text::contains_str(low.as_str(), tl.as_str()) {
                self.line_number = i;
                proof {
                    assert(self@ =~= (FileViewerV { line_number: i as int, ..old(self)@ }));
                }
                return Some(i);
            }
            i = i + 1;
        }
        None
    }

    /// Steps to the nearest line before the current one that holds the
    /// term, case-insensitively; the scan starts no further than the
    /// line count, so a file that shrank since the position was taken is
    /// safe to step through. Without an open file and a term, or without
    /// an earlier match, nothing changes.
    pub fn previous_match(&mut self, lines: &Vec<String>) -> (r: Option<usize>)
        ensures
            (old(self)@.current_file is None || old(self)@.search_term is None) ==> (final(self)@
                == old(self)@ && r is None),
            old(self)@.current_file is Some && old(self)@.search_term is Some ==> (match r {
                Some(i) => {
                    &&& 0 <= i < scan_bound(old(self)@.line_number, lines@.len() as int)
                    &&& line_matches(str_views(lines@)[i as int], old(self)@.search_term->0)
                    &&& forall|j: int|
                        i < j < scan_bound(old(self)@.line_number, lines@.len() as int)
                            ==> !line_matches(
                            #[trigger] str_views(lines@)[j],
                            old(self)@.search_term->0,
                        )
                    &&& final(self)@ == (FileViewerV { line_number: i as int, ..old(self)@ })
                },
                None => {
                    &&& forall|j: int|
                        0 <= j < scan_bound(old(self)@.line_number, lines@.len() as int)
                            ==> !line_matches(
                            #[trigger] str_views(lines@)[j],
                            old(self)@.search_term->0,
                        )
                    &&& final(self)@ == old(self)@
                },
            }),
    {
        if self.current_file.is_none() {
            return None;
        }
        let term = match &self.search_term {
            Some(t) => t,
            None => {
                return None;
            },
        };
        let tl = crate::text::lowercase(term.as_str());
        let hi = if self.line_number <= lines.len() {
            self.line_number
        } else {
            lines.len()
        };
        let mut i: usize = hi;
        while i > 0
            invariant
                i <= hi,
                hi as int == scan_bound(old(self)@.line_number, lines@.len() as int),
                hi <= lines@.len(),
                self == old(self),
                old(self)@.current_file is Some,
                old(self)@.search_term is Some,
                tl@ == lower_of(old(self)@.search_term->0),
                forall|j: int|
                    i <= j < hi ==> !line_matches(
                        #[trigger] str_views(lines@)[j],
                        old(self)@.search_term->0,
                    ),
            decreases i,
        {
            proof {
                assert(str_views(lines@)[i - 1] == lines@[i - 1]@);
            }
            let low = crate::text::lowercase(lines[i - 1].as_str());
            if crate::text::contains_str(low.as_str(), tl.as_str()) {
                self.line_number = i - 1;
                proof {
                    assert(self@ =~= (FileViewerV { line_number: i - 1, ..old(self)@ }));
                }
                return Some(i - 1);
            }
            i = i - 1;
        }
        None
    }
}

} // verus!

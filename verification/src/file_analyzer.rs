//! The directory-statistics tool's data model.
//!
//! Walking the file system is I/O and happens outside the library; each
//! file found is folded into a `FileAnalysis` here: totals, per-extension
//! counts, and the five largest files in descending size order.

use vstd::prelude::*;

use crate::json::{rep_lookup, rep_of, str_eq, JsonRep, JsonValue};

verus! {

/// The arguments of one directory analysis.
#[derive(Debug)]
pub struct FileAnalyzerParams {
    pub path: String,
    pub recursive: bool,
}

/// What one argument value decodes to, if anything: an object with a text
/// `path` and a boolean `recursive`.
pub open spec fn analyzer_params_rep(args: JsonRep) -> Option<(Seq<char>, bool)> {
    match args {
        JsonRep::Object(ms) => match rep_lookup(ms, "path"@) {
            Option::Some(JsonRep::Text(p)) => match rep_lookup(ms, "recursive"@) {
                Option::Some(JsonRep::Bool(b)) => Some((p, b)),
                _ => None,
            },
            _ => None,
        },
        _ => None,
    }
}

impl FileAnalyzerParams {
    /// Reads the parameters out of a request's argument value.
    pub fn from_args(args: &JsonValue) -> (r: Option<FileAnalyzerParams>)
        ensures
            match r {
                Some(p) => analyzer_params_rep(rep_of(*args)) == Some((p.path@, p.recursive)),
                None => analyzer_params_rep(rep_of(*args)) is None,
            },
    {
        proof {
            if args is Object {
                assert(JsonValue::Object(args->Object_0) == *args);
                crate::json::lemma_rep_of_object(args->Object_0);
                crate::json::lemma_lookup_rep(args->Object_0@, "path"@);
                crate::json::lemma_lookup_rep(args->Object_0@, "recursive"@);
            }
        }
        let path: String = match args.get("path") {
            Some(pv) => match pv.as_text() {
                Some(s) => s.clone(),
                None => {
                    return None;
                },
            },
            None => {
                return None;
            },
        };
        match args.get("recursive") {
            Some(rv) => match rv {
                JsonValue::Bool(b) => Some(FileAnalyzerParams { path, recursive: *b }),
                _ => None,
            },
            None => None,
        }
    }
}

/// A descending order on recorded file sizes.
pub open spec fn sizes_sorted(v: Seq<(Seq<char>, u64)>) -> bool {
    forall|i: int, j: int| 0 <= i < j < v.len() ==> v[i].1 >= v[j].1
}

/// The outcome of one directory analysis.
#[derive(Debug)]
pub struct FileAnalysis {
    pub total_size: u64,
    pub file_count: u64,
    pub extension_stats: Vec<(String, u64)>,
    pub largest_files: Vec<(String, u64)>,
}

/// The recorded sizes, as a model.
pub open spec fn largest_model(v: Seq<(String, u64)>) -> Seq<(Seq<char>, u64)> {
    Seq::new(
        v.len(),
        |i: int|
            if 0 <= i < v.len() {
                (v[i].0@, v[i].1)
            } else {
                (Seq::<char>::empty(), 0u64)
            },
    )
}

/// The analysis invariant: at most five recorded files, largest first.
pub open spec fn analysis_wf(a: FileAnalysis) -> bool {
    &&& a.largest_files@.len() <= 5
    &&& sizes_sorted(largest_model(a.largest_files@))
}

impl FileAnalysis {
    /// An empty analysis.
    pub fn new() -> (r: FileAnalysis)
        ensures
            analysis_wf(r),
            r.total_size == 0,
            r.file_count == 0,
            r.extension_stats@.len() == 0,
            r.largest_files@.len() == 0,
    {
        FileAnalysis {
            total_size: 0,
            file_count: 0,
            extension_stats: Vec::new(),
            largest_files: Vec::new(),
        }
    }

    /// Counts one extension occurrence: the first matching entry is bumped,
    /// a missing extension gets a fresh entry at the end.
    #[verifier::loop_isolation(false)]
    pub fn bump_extension(&mut self, ext: &str)
        requires
            analysis_wf(*old(self)),
        ensures
            analysis_wf(*final(self)),
            final(self).total_size == old(self).total_size,
            final(self).file_count == old(self).file_count,
            final(self).largest_files == old(self).largest_files,
    {
        let n = self.extension_stats.len();
        let mut i: usize = 0;
        while i < n
            invariant
                n == self.extension_stats@.len(),
                i <= n,
                *self == *old(self),
            decreases n - i,
        {
            if str_eq(self.extension_stats[i].0.as_str(), ext) {
                let c = self.extension_stats[i].1;
                let bumped = if c < u64::MAX {
                    c + 1
                } else {
                    c
                };
                let key = self.extension_stats[i].0.clone();
                self.extension_stats.set(i, (key, bumped));
                return ;
            }
            i = i + 1;
        }
        self.extension_stats.push((ext.to_owned(), 1));
    }

    /// Folds one file into the analysis: the size joins the total
    /// (saturating), the count grows by one (saturating), and the file
    /// enters the top-five list if it is large enough.
    #[verifier::loop_isolation(false)]
    pub fn record_file(&mut self, path: String, size: u64)
        requires
            analysis_wf(*old(self)),
        ensures
            analysis_wf(*final(self)),
            final(self).file_count == if old(self).file_count < u64::MAX {
                (old(self).file_count + 1) as u64
            } else {
                old(self).file_count
            },
            final(self).total_size == if old(self).total_size + size <= u64::MAX {
                (old(self).total_size + size) as u64
            } else {
                u64::MAX
            },
            final(self).extension_stats == old(self).extension_stats,
    {
        if self.file_count < u64::MAX {
            self.file_count = self.file_count + 1;
        }
        if self.total_size <= u64::MAX - size {
            self.total_size = self.total_size + size;
        } else {
            self.total_size = u64::MAX;
        }
        self.insert_largest(path, size);
    }

    /// Inserts one file into the descending top-five list.
    #[verifier::loop_isolation(false)]
    fn insert_largest(&mut self, path: String, size: u64)
        requires
            analysis_wf(*old(self)),
        ensures
            analysis_wf(*final(self)),
            final(self).total_size == old(self).total_size,
            final(self).file_count == old(self).file_count,
            final(self).extension_stats == old(self).extension_stats,
    {
        let n = self.largest_files.len();
        let mut pos: usize = 0;
        while pos < n && self.largest_files[pos].1 >= size
            invariant
                n == self.largest_files@.len(),
                pos <= n,
                forall|j: int|
                    0 <= j < pos ==> largest_model(self.largest_files@)[j].1 >= size,
            decreases n - pos,
        {
            pos = pos + 1;
        }
        let ghost pre = largest_model(self.largest_files@);
        self.largest_files.insert(pos, (path, size));
        proof {
            let cur = largest_model(self.largest_files@);
            assert(forall|j: int| 0 <= j < pos ==> cur[j] == pre[j]);
            assert(cur[pos as int].1 == size);
            assert(forall|j: int| pos < j < cur.len() ==> cur[j] == pre[j - 1]);
            assert(sizes_sorted(pre));
            assert forall|i: int, j: int| 0 <= i < j < cur.len() implies cur[i].1 >= cur[j].1 by {
                if j > pos {
                    assert(cur[j] == pre[j - 1]);
                    assert(j - 1 < n);
                    assert(pos < n);
                    if j - 1 > pos {
                        assert(pre[pos as int].1 >= pre[j - 1].1);
                    }
                    assert(pre[j - 1].1 <= pre[pos as int].1 || j - 1 == pos);
                    assert(pre[pos as int].1 < size);
                }
                if i < pos {
                    assert(cur[i] == pre[i]);
                    assert(pre[i].1 >= size);
                }
                if i > pos && j > pos {
                    assert(cur[i] == pre[i - 1]);
                    assert(pre[i - 1].1 >= pre[j - 1].1);
                }
            }
        }
        if self.largest_files.len() > 5 {
            self.largest_files.truncate(5);
            proof {
                let cur = largest_model(self.largest_files@);
                assert(forall|j: int|
                    0 <= j < cur.len() ==> cur[j] == largest_model(
                        old(self).largest_files@.insert(pos as int, (path, size)),
                    )[j]);
            }
        }
    }

    /// Merges a subdirectory's analysis into this one, as the recursive
    /// walk does: totals join saturating, extension counts add up, and the
    /// top-five lists are combined keeping only the five largest.
    #[verifier::loop_isolation(false)]
    pub fn merge(&mut self, sub: FileAnalysis)
        requires
            analysis_wf(*old(self)),
            analysis_wf(sub),
        ensures
            analysis_wf(*final(self)),
            final(self).file_count == if old(self).file_count + sub.file_count <= u64::MAX {
                (old(self).file_count + sub.file_count) as u64
            } else {
                u64::MAX
            },
            final(self).total_size == if old(self).total_size + sub.total_size <= u64::MAX {
                (old(self).total_size + sub.total_size) as u64
            } else {
                u64::MAX
            },
    {
        if self.file_count <= u64::MAX - sub.file_count {
            self.file_count = self.file_count + sub.file_count;
        } else {
            self.file_count = u64::MAX;
        }
        if self.total_size <= u64::MAX - sub.total_size {
            self.total_size = self.total_size + sub.total_size;
        } else {
            self.total_size = u64::MAX;
        }
        let ghost fc = self.file_count;
        let ghost ts = self.total_size;
        let mut k: usize = 0;
        let en = sub.extension_stats.len();
        while k < en
            invariant
                en == sub.extension_stats@.len(),
                k <= en,
                analysis_wf(*self),
                self.file_count == fc,
                self.total_size == ts,
            decreases en - k,
        {
            self.add_extension_count(
                sub.extension_stats[k].0.clone(),
                sub.extension_stats[k].1,
            );
            k = k + 1;
        }
        let mut k2: usize = 0;
        let ln = sub.largest_files.len();
        while k2 < ln
            invariant
                ln == sub.largest_files@.len(),
                k2 <= ln,
                analysis_wf(*self),
                self.file_count == fc,
                self.total_size == ts,
            decreases ln - k2,
        {
            let p = sub.largest_files[k2].0.clone();
            let sz = sub.largest_files[k2].1;
            self.insert_largest(p, sz);
            k2 = k2 + 1;
        }
    }

    /// Adds a whole count to one extension's entry.
    #[verifier::loop_isolation(false)]
    fn add_extension_count(&mut self, ext: String, count: u64)
        requires
            analysis_wf(*old(self)),
        ensures
            analysis_wf(*final(self)),
            final(self).total_size == old(self).total_size,
            final(self).file_count == old(self).file_count,
            final(self).largest_files == old(self).largest_files,
    {
        let n = self.extension_stats.len();
        let mut i: usize = 0;
        while i < n
            invariant
                n == self.extension_stats@.len(),
                i <= n,
                *self == *old(self),
            decreases n - i,
        {
            if str_eq(self.extension_stats[i].0.as_str(), ext.as_str()) {
                let c = self.extension_stats[i].1;
                let bumped = if c <= u64::MAX - count {
                    c + count
                } else {
                    u64::MAX
                };
                let key = self.extension_stats[i].0.clone();
                self.extension_stats.set(i, (key, bumped));
                return ;
            }
            i = i + 1;
        }
        self.extension_stats.push((ext, count));
    }

    /// The analysis as a structured value, ready to carry in a result.
    #[verifier::loop_isolation(false)]
    pub fn to_value(&self) -> (r: JsonValue)
        ensures
            r is Object,
    {
        let mut stats: Vec<(String, JsonValue)> = Vec::new();
        let mut i: usize = 0;
        let en = self.extension_stats.len();
        while i < en
            invariant
                en == self.extension_stats@.len(),
                i <= en,
            decreases en - i,
        {
            stats.push(
                (
                    self.extension_stats[i].0.clone(),
                    JsonValue::Number(crate::numbers::u64_to_string(self.extension_stats[i].1)),
                ),
            );
            i = i + 1;
        }
        let mut files: Vec<JsonValue> = Vec::new();
        let mut j: usize = 0;
        let ln = self.largest_files.len();
        while j < ln
            invariant
                ln == self.largest_files@.len(),
                j <= ln,
            decreases ln - j,
        {
            let mut pair: Vec<JsonValue> = Vec::new();
            pair.push(JsonValue::Text(self.largest_files[j].0.clone()));
            pair.push(JsonValue::Number(crate::numbers::u64_to_string(self.largest_files[j].1)));
            files.push(JsonValue::Array(pair));
            j = j + 1;
        }
        let mut ms: Vec<(String, JsonValue)> = Vec::new();
        let k1: &str = "total_size";
        ms.push((k1.to_owned(), JsonValue::Number(crate::numbers::u64_to_string(self.total_size))));
        let k2: &str = "file_count";
        ms.push((k2.to_owned(), JsonValue::Number(crate::numbers::u64_to_string(self.file_count))));
        let k3: &str = "extension_stats";
        ms.push((k3.to_owned(), JsonValue::Object(stats)));
        let k4: &str = "largest_files";
        ms.push((k4.to_owned(), JsonValue::Array(files)));
        JsonValue::Object(ms)
    }
}

/// The directory-statistics tool: its identity; the walk itself runs
/// outside the library.
#[derive(Debug)]
pub struct FileAnalyzerTool;

impl FileAnalyzerTool {
    /// The tool.
    pub fn new() -> (r: FileAnalyzerTool) {
        FileAnalyzerTool
    }

    /// The dispatch key of the tool.
    pub fn name(&self) -> (r: String)
        ensures
            r@ == "file_analyzer"@,
    {
        let s: &str = "file_analyzer";
        s.to_owned()
    }

    /// The description exposed through discovery.
    pub fn description(&self) -> (r: String)
        ensures
            r@ == "Analyzes the files under a directory: sizes and type counts"@,
    {
        let s: &str = "Analyzes the files under a directory: sizes and type counts";
        s.to_owned()
    }
}

} // verus!

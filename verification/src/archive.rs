//! Safe placement of archive entries. Every entry name is normalised before
//! anything is written for it: drive and root prefixes and `.` segments are
//! discarded, and a name with a `..` segment fails the whole extraction.

use crate::text::{chars_of, decimal, decimal_string, is_separator, lemma_segments_nonempty, segments};
use vstd::prelude::*;
use vstd::string::*;

verus! {

/// Why an entry cannot be placed.
#[derive(Clone, Copy, Debug, PartialEq, Eq, Structural)]
pub enum EntryRejection {
    /// The name holds a `..` segment.
    Traversal,
    /// A file entry whose name holds no segment to write to.
    NoFileName,
}

/// The entry that stopped an extraction, by its position in the archive.
#[derive(Clone, Copy, Debug, PartialEq, Eq, Structural)]
pub struct ExtractError {
    pub index: usize,
    pub reason: EntryRejection,
}

/// One step of an extraction. Paths are segment lists relative to the
/// destination root.
#[derive(Debug)]
pub enum ExtractStep {
    /// Create this directory and its missing parents.
    CreateDirectory { path: Vec<String> },
    /// Create the missing parents, then write the entry's bytes to a new file
    /// at this path, over any file already there.
    WriteFile { path: Vec<String> },
    /// Delete the archive file.
    RemoveArchive,
}

/// The mathematical content of an [`ExtractStep`].
pub enum ExtractStepView {
    CreateDirectory { path: Seq<Seq<char>> },
    WriteFile { path: Seq<Seq<char>> },
    RemoveArchive,
}

impl View for ExtractStep {
    type V = ExtractStepView;

    open spec fn view(&self) -> ExtractStepView {
        match self {
            ExtractStep::CreateDirectory { path } => ExtractStepView::CreateDirectory {
                path: path.deep_view(),
            },
            ExtractStep::WriteFile { path } => ExtractStepView::WriteFile { path: path.deep_view() },
            ExtractStep::RemoveArchive => ExtractStepView::RemoveArchive,
        }
    }
}

/// A letter of the Latin alphabet, as drives are named by.
pub open spec fn is_ascii_letter(c: char) -> bool {
    ('a' <= c && c <= 'z') || ('A' <= c && c <= 'Z')
}

/// The name begins with a drive prefix such as `C:`.
pub open spec fn has_drive_prefix(name: Seq<char>) -> bool {
    name.len() >= 2 && is_ascii_letter(name[0]) && name[1] == ':'
}

/// The name without its drive prefix, if it has one.
pub open spec fn without_drive(name: Seq<char>) -> Seq<char> {
    if has_drive_prefix(name) {
        name.skip(2)
    } else {
        name
    }
}

/// The segment `..`, which names the parent directory.
pub open spec fn is_parent_segment(segment: Seq<char>) -> bool {
    segment == seq!['.', '.']
}

/// A segment that names something below the current directory: neither
/// empty (a root or a doubled separator) nor `.`.
pub open spec fn is_kept_segment(segment: Seq<char>) -> bool {
    segment.len() > 0 && segment != seq!['.']
}

/// The test by which segments are kept, as a function.
pub open spec fn kept() -> spec_fn(Seq<char>) -> bool {
    |segment: Seq<char>| is_kept_segment(segment)
}

/// Some segment of the list is `..`.
pub open spec fn holds_parent(list: Seq<Seq<char>>) -> bool {
    exists|i: int| 0 <= i < list.len() && is_parent_segment(#[trigger] list[i])
}

/// Some segment of the name is `..`.
pub open spec fn has_parent_segment(name: Seq<char>) -> bool {
    holds_parent(segments(without_drive(name)))
}

/// The name's segments, without the drive prefix, empty segments and `.`.
pub open spec fn normalized(name: Seq<char>) -> Seq<Seq<char>> {
    segments(without_drive(name)).filter(kept())
}

/// A name with a trailing separator stands for a directory.
pub open spec fn is_directory_name(name: Seq<char>) -> bool {
    name.len() > 0 && is_separator(name.last())
}

/// What is done for an entry of this name, or why it is refused.
pub open spec fn entry_step(name: Seq<char>) -> Result<ExtractStepView, EntryRejection> {
    if has_parent_segment(name) {
        Err(EntryRejection::Traversal)
    } else if is_directory_name(name) {
        Ok(ExtractStepView::CreateDirectory { path: normalized(name) })
    } else if normalized(name).len() == 0 {
        Err(EntryRejection::NoFileName)
    } else {
        Ok(ExtractStepView::WriteFile { path: normalized(name) })
    }
}

/// The steps of a whole extraction: one per entry, in the archive's order,
/// then the removal of the archive.
pub open spec fn extraction_steps(names: Seq<Seq<char>>) -> Seq<ExtractStepView> {
    Seq::new(
        names.len() + 1,
        |i: int|
            if i < names.len() {
                entry_step(names[i])->Ok_0
            } else {
                ExtractStepView::RemoveArchive
            },
    )
}

/// Every entry of the archive is accepted.
pub open spec fn all_accepted(names: Seq<Seq<char>>) -> bool {
    forall|i: int| 0 <= i < names.len() ==> entry_step(#[trigger] names[i]) is Ok
}

/// The entry at position `at` is refused, and none before it is.
pub open spec fn is_first_refused(names: Seq<Seq<char>>, at: int) -> bool {
    &&& 0 <= at < names.len()
    &&& entry_step(names[at]) is Err
    &&& forall|j: int| 0 <= j < at ==> entry_step(#[trigger] names[j]) is Ok
}

/// The plan for an archive with these entries: its steps, or the first
/// entry that is refused.
pub open spec fn plan_of(names: Seq<Seq<char>>) -> Result<Seq<ExtractStepView>, ExtractError> {
    if all_accepted(names) {
        Ok(extraction_steps(names))
    } else {
        let at = choose|at: int| is_first_refused(names, at);
        Err(ExtractError { index: at as usize, reason: entry_step(names[at])->Err_0 })
    }
}

/// The content of a plan or of the error in its place.
pub open spec fn plan_view(result: Result<Vec<ExtractStep>, ExtractError>) -> Result<
    Seq<ExtractStepView>,
    ExtractError,
> {
    match result {
        Ok(plan) => Ok(step_views(plan@)),
        Err(error) => Err(error),
    }
}

/// The path `root/segment/segment/...`.
pub open spec fn path_under(root: Seq<char>, path: Seq<Seq<char>>) -> Seq<char>
    decreases path.len(),
{
    if path.len() == 0 {
        root
    } else {
        path_under(root, path.drop_last()) + seq!['/'] + path.last()
    }
}

/// The views of a list of steps, one by one.
pub open spec fn step_views(steps: Seq<ExtractStep>) -> Seq<ExtractStepView> {
    steps.map_values(|s: ExtractStep| s@)
}

/// Among the first `n` entries, of which one is refused, one is the first
/// that is refused.
proof fn lemma_first_refused_exists(names: Seq<Seq<char>>, n: int)
    requires
        0 <= n <= names.len(),
        exists|i: int| 0 <= i < n && entry_step(#[trigger] names[i]) is Err,
    ensures
        exists|at: int| at < n && is_first_refused(names, at),
    decreases n,
{
    if exists|i: int| 0 <= i < n - 1 && entry_step(#[trigger] names[i]) is Err {
        lemma_first_refused_exists(names, n - 1);
    } else {
        assert(entry_step(names[n - 1]) is Err);
        assert(is_first_refused(names, n - 1));
    }
}

/// The plan of an archive is its list of steps exactly when every entry is
/// accepted. Otherwise it is the error that names the first refused entry
/// and the reason for which that entry is refused.
pub proof fn lemma_plan_of(names: Seq<Seq<char>>)
    requires
        names.len() <= usize::MAX,
    ensures
        match plan_of(names) {
            Ok(steps) => all_accepted(names) && steps == extraction_steps(names),
            Err(error) => is_first_refused(names, error.index as int) && entry_step(
                names[error.index as int],
            ) == Err::<ExtractStepView, EntryRejection>(error.reason),
        },
{
    if !all_accepted(names) {
        lemma_first_refused_exists(names, names.len() as int);
    }
}

/// No segment holds a separator.
pub proof fn lemma_segments_hold_no_separator(path: Seq<char>)
    ensures
        forall|i: int, k: int|
            0 <= i < segments(path).len() && 0 <= k < segments(path)[i].len() ==> !is_separator(
                #[trigger] segments(path)[i][k],
            ),
    decreases path.len(),
{
    if path.len() > 0 {
        lemma_segments_hold_no_separator(path.drop_last());
        lemma_segments_nonempty(path.drop_last());
    }
}

/// Appending a separator and a separator-free segment to a path appends
/// that segment to the path's segments.
pub proof fn lemma_segments_of_appended(base: Seq<char>, segment: Seq<char>)
    requires
        forall|k: int| 0 <= k < segment.len() ==> !is_separator(#[trigger] segment[k]),
    ensures
        segments(base + seq!['/'] + segment) == segments(base).push(segment),
    decreases segment.len(),
{
    let whole = base + seq!['/'] + segment;
    if segment.len() == 0 {
        assert(whole.drop_last() =~= base);
        assert(whole.last() == '/');
        assert(segment =~= Seq::<char>::empty());
    } else {
        let shorter = segment.drop_last();
        lemma_segments_of_appended(base, shorter);
        assert(whole.drop_last() =~= base + seq!['/'] + shorter);
        assert(whole.last() == segment.last());
        let before = segments(base).push(shorter);
        assert(before.drop_last() =~= segments(base));
        assert(shorter.push(segment.last()) =~= segment);
    }
}

/// The segments of a path built under a root are the root's segments
/// followed by the path's own.
pub proof fn lemma_segments_of_path_under(root: Seq<char>, path: Seq<Seq<char>>)
    requires
        forall|i: int, k: int|
            0 <= i < path.len() && 0 <= k < path[i].len() ==> !is_separator(#[trigger] path[i][k]),
    ensures
        segments(path_under(root, path)) == segments(root) + path,
        root.is_prefix_of(path_under(root, path)),
    decreases path.len(),
{
    if path.len() == 0 {
        assert(segments(root) + path =~= segments(root));
    } else {
        let shorter = path.drop_last();
        lemma_segments_of_path_under(root, shorter);
        lemma_segments_of_appended(path_under(root, shorter), path.last());
        assert(segments(root) + path =~= (segments(root) + shorter).push(path.last()));
    }
}

/// Filtering a list that grew by one segment keeps that segment or not.
proof fn lemma_kept_of_push(list: Seq<Seq<char>>, segment: Seq<char>)
    ensures
        list.push(segment).filter(kept()) == if is_kept_segment(segment) {
            list.filter(kept()).push(segment)
        } else {
            list.filter(kept())
        },
{
    reveal(Seq::filter);
    assert(list.push(segment).drop_last() =~= list);
}

/// A list that grew by one segment holds `..` if it did before or the
/// new segment is `..`.
proof fn lemma_parent_of_push(list: Seq<Seq<char>>, segment: Seq<char>)
    ensures
        holds_parent(list.push(segment)) <==> holds_parent(list) || is_parent_segment(segment),
{
    let grown = list.push(segment);
    if holds_parent(grown) {
        let j = choose|j: int| 0 <= j < grown.len() && is_parent_segment(#[trigger] grown[j]);
        if j < list.len() {
            assert(grown[j] == list[j]);
        }
    }
    if holds_parent(list) {
        let j = choose|j: int| 0 <= j < list.len() && is_parent_segment(#[trigger] list[j]);
        assert(grown[j] == list[j]);
    }
    if is_parent_segment(segment) {
        assert(grown[list.len() as int] == segment);
    }
}

/// A normalised path holds only segments that name something below the
/// current directory, with no separator in them and none of them `..`.
pub proof fn lemma_normalized_segments(name: Seq<char>)
    ensures
        forall|i: int|
            0 <= i < normalized(name).len() ==> is_kept_segment(#[trigger] normalized(name)[i]),
        forall|i: int, k: int|
            0 <= i < normalized(name).len() && 0 <= k < normalized(name)[i].len() ==> !is_separator(
                #[trigger] normalized(name)[i][k],
            ),
        !has_parent_segment(name) ==> forall|i: int|
            0 <= i < normalized(name).len() ==> !is_parent_segment(#[trigger] normalized(name)[i]),
{
    let raw = segments(without_drive(name));
    let kept_ones = normalized(name);
    lemma_segments_hold_no_separator(without_drive(name));
    assert forall|i: int| 0 <= i < kept_ones.len() implies raw.contains(#[trigger] kept_ones[i])
        && is_kept_segment(kept_ones[i]) by {
        raw.lemma_filter_pred(kept(), i);
        assert(kept_ones.contains(kept_ones[i]));
        raw.lemma_filter_contains_rev(kept(), kept_ones[i]);
    }
    assert forall|i: int, k: int|
        0 <= i < kept_ones.len() && 0 <= k < kept_ones[i].len() implies !is_separator(
        #[trigger] kept_ones[i][k],
    ) by {
        assert(raw.contains(kept_ones[i]));
        let j = choose|j: int| 0 <= j < raw.len() && raw[j] == kept_ones[i];
        assert(!is_separator(raw[j][k]));
    }
    if !has_parent_segment(name) {
        assert forall|i: int| 0 <= i < kept_ones.len() implies !is_parent_segment(
            #[trigger] kept_ones[i],
        ) by {
            assert(raw.contains(kept_ones[i]));
            let j = choose|j: int| 0 <= j < raw.len() && raw[j] == kept_ones[i];
            assert(!is_parent_segment(raw[j]));
        }
    }
}

/// Whatever is written for an accepted entry lies below the destination
/// root: the root is a prefix of the written path, and the path's segments
/// are the root's own followed by segments none of which is `..`, `.` or empty.
pub proof fn lemma_accepted_entry_stays_under_root(root: Seq<char>, name: Seq<char>)
    requires
        entry_step(name) is Ok,
    ensures
        root.is_prefix_of(path_under(root, normalized(name))),
        segments(path_under(root, normalized(name))) == segments(root) + normalized(name),
        forall|i: int|
            0 <= i < normalized(name).len() ==> is_kept_segment(#[trigger] normalized(name)[i])
                && !is_parent_segment(normalized(name)[i]),
{
    lemma_normalized_segments(name);
    lemma_segments_of_path_under(root, normalized(name));
}

/// An entry whose name holds a `..` segment is refused, whatever else the
/// name holds.
pub proof fn lemma_traversal_is_refused(name: Seq<char>)
    requires
        has_parent_segment(name),
    ensures
        entry_step(name) == Err::<ExtractStepView, EntryRejection>(EntryRejection::Traversal),
{
}

/// Why an entry is refused, in words.
pub open spec fn rejection_text(reason: EntryRejection) -> Seq<char> {
    match reason {
        EntryRejection::Traversal => "its path holds a parent-directory segment"@,
        EntryRejection::NoFileName => "its path names no file"@,
    }
}

/// What a stopped extraction is reported as.
pub open spec fn extract_error_message(error: ExtractError) -> Seq<char> {
    "Archive entry "@ + decimal(error.index as nat) + " is refused: "@ + rejection_text(
        error.reason,
    )
}

impl ExtractError {
    /// The error in words.
    pub fn message(&self) -> (text: String)
        ensures
            text@ == extract_error_message(*self),
    {
        let mut text = String::from_str("Archive entry ");
        let index = decimal_string(self.index as u64);
        text.append(index.as_str());
        text.append(" is refused: ");
        match self.reason {
            EntryRejection::Traversal => text.append("its path holds a parent-directory segment"),
            EntryRejection::NoFileName => text.append("its path names no file"),
        }
        text
    }
}

fn is_separator_char(c: char) -> (b: bool)
    ensures
        b == is_separator(c),
{
    c == '/' || c == '\\'
}

fn starts_with_drive(chars: &Vec<char>) -> (b: bool)
    ensures
        b == has_drive_prefix(chars@),
{
    if chars.len() < 2 {
        return false;
    }
    let first = chars[0];
    let letter = ('a' <= first && first <= 'z') || ('A' <= first && first <= 'Z');
    letter && chars[1] == ':'
}

/// Takes the segment `chars[from..to]` of `name` in: appends it to `path`
/// if it names something below the current directory, and tells whether
/// it is `..`.
fn take_segment(name: &str, chars: &Vec<char>, from: usize, to: usize, path: &mut Vec<String>) -> (parent:
    bool)
    requires
        chars@ == name@,
        from <= to <= chars.len(),
    ensures
        parent == is_parent_segment(chars@.subrange(from as int, to as int)),
        final(path).deep_view() == if is_kept_segment(chars@.subrange(from as int, to as int)) {
            old(path).deep_view().push(chars@.subrange(from as int, to as int))
        } else {
            old(path).deep_view()
        },
{
    let ghost segment = chars@.subrange(from as int, to as int);
    let len = to - from;
    let dot = len == 1 && chars[from] == '.';
    let parent = len == 2 && chars[from] == '.' && chars[from + 1] == '.';
    proof {
        if dot {
            assert(segment =~= seq!['.']);
        }
        if segment == seq!['.'] {
            assert(segment.len() == 1 && segment[0] == '.');
        }
        if parent {
            assert(segment =~= seq!['.', '.']);
        }
        if is_parent_segment(segment) {
            assert(segment.len() == 2 && segment[0] == '.' && segment[1] == '.');
        }
    }
    if len > 0 && !dot {
        let piece = name.substring_char(from, to).to_owned();
        path.push(piece);
        assert(path.deep_view() =~= old(path).deep_view().push(segment));
    }
    parent
}

/// Decides what to do for the archive entry called `name`.
pub fn resolve_entry(name: &str) -> (result: Result<ExtractStep, EntryRejection>)
    ensures
        match result {
            Ok(step) => entry_step(name@) == Ok::<ExtractStepView, EntryRejection>(step@),
            Err(reason) => entry_step(name@) == Err::<ExtractStepView, EntryRejection>(reason),
        },
{
    let chars = chars_of(name);
    let n = chars.len();
    let start: usize = if starts_with_drive(&chars) {
        2
    } else {
        0
    };
    let ghost body = without_drive(name@);
    // The segments before the one that is being read.
    let ghost mut closed: Seq<Seq<char>> = Seq::empty();
    let mut path: Vec<String> = Vec::new();
    let mut found_parent = false;
    let mut seg_start: usize = start;
    let mut i: usize = start;
    proof {
        reveal(Seq::filter);
        assert(body =~= chars@.skip(start as int));
        assert(body.take(0) =~= Seq::<char>::empty());
        assert(segments(body.take(0)).drop_last() =~= closed);
        assert(chars@.subrange(start as int, start as int) =~= Seq::<char>::empty());
    }
    while i < n
        invariant
            chars@ == name@,
            n == chars.len(),
            start <= seg_start <= i <= n,
            body == chars@.skip(start as int),
            segments(body.take(i - start)) == closed.push(
                chars@.subrange(seg_start as int, i as int),
            ),
            path.deep_view() == closed.filter(kept()),
            found_parent == holds_parent(closed),
        decreases n - i,
    {
        let ghost current = chars@.subrange(seg_start as int, i as int);
        proof {
            assert(body.take(i + 1 - start).drop_last() =~= body.take(i - start));
            assert(body.take(i + 1 - start).last() == chars@[i as int]);
            assert(closed.push(current).drop_last() =~= closed);
        }
        if is_separator_char(chars[i]) {
            let parent = take_segment(name, &chars, seg_start, i, &mut path);
            found_parent = found_parent || parent;
            proof {
                lemma_kept_of_push(closed, current);
                lemma_parent_of_push(closed, current);
                closed = closed.push(current);
                assert(chars@.subrange(i + 1, i + 1) =~= Seq::<char>::empty());
            }
            seg_start = i + 1;
        } else {
            proof {
                assert(current.push(chars@[i as int]) =~= chars@.subrange(seg_start as int, i + 1));
            }
        }
        i += 1;
    }
    let ghost last = chars@.subrange(seg_start as int, n as int);
    let parent = take_segment(name, &chars, seg_start, n, &mut path);
    proof {
        assert(body.take(n - start) =~= body);
        lemma_kept_of_push(closed, last);
        lemma_parent_of_push(closed, last);
    }
    if found_parent || parent {
        return Err(EntryRejection::Traversal);
    }
    let directory = n > 0 && is_separator_char(chars[n - 1]);
    if directory {
        Ok(ExtractStep::CreateDirectory { path })
    } else if path.len() == 0 {
        Err(EntryRejection::NoFileName)
    } else {
        Ok(ExtractStep::WriteFile { path })
    }
}

/// Plans the extraction of an archive from the names of its entries.
///
/// Every name is checked before the plan is handed out, so that nothing is
/// written for an archive that holds a refused entry. The plan holds one
/// step per entry, in the archive's order, and ends with the removal of the
/// archive.
pub fn plan_extraction(names: &Vec<String>) -> (result: Result<Vec<ExtractStep>, ExtractError>)
    ensures
        plan_view(result) == plan_of(names.deep_view()),
        match result {
            Ok(plan) => {
                &&& forall|i: int| 0 <= i < names.len() ==> entry_step(#[trigger] names[i]@) is Ok
                &&& step_views(plan@) == extraction_steps(names.deep_view())
            },
            Err(e) => {
                &&& e.index < names.len()
                &&& entry_step(names[e.index as int]@) == Err::<ExtractStepView, EntryRejection>(
                    e.reason,
                )
                &&& forall|j: int| 0 <= j < e.index ==> entry_step(#[trigger] names[j]@) is Ok
            },
        },
{
    let ghost list = names.deep_view();
    let mut plan: Vec<ExtractStep> = Vec::new();
    let mut i: usize = 0;
    while i < names.len()
        invariant
            i <= names.len(),
            plan.len() == i,
            list == names.deep_view(),
            forall|j: int| 0 <= j < i ==> entry_step(#[trigger] list[j]) is Ok,
            forall|j: int| 0 <= j < i ==> entry_step(#[trigger] names[j]@) is Ok,
            forall|j: int| 0 <= j < i ==> (#[trigger] plan[j])@ == entry_step(names[j]@)->Ok_0,
        decreases names.len() - i,
    {
        assert(list[i as int] == names[i as int]@);
        match resolve_entry(names[i].as_str()) {
            Ok(step) => {
                plan.push(step);
            },
            Err(reason) => {
                proof {
                    assert(is_first_refused(list, i as int));
                    let at = choose|at: int| is_first_refused(list, at);
                    assert(at == i) by {
                        if at < i {
                            assert(entry_step(list[at]) is Ok);
                        }
                        if at > i {
                            assert(entry_step(list[i as int]) is Ok);
                        }
                    }
                }
                return Err(ExtractError { index: i, reason });
            },
        }
        i += 1;
    }
    plan.push(ExtractStep::RemoveArchive);
    proof {
        let expected = extraction_steps(names.deep_view());
        assert(step_views(plan@).len() == expected.len());
        assert forall|j: int| 0 <= j < expected.len() implies step_views(plan@)[j] == expected[j] by {
            if j < names.len() {
                assert(names.deep_view()[j] == names[j]@);
            }
        }
        assert(step_views(plan@) =~= expected);
    }
    Ok(plan)
}

/// The path of `path` below `root`, written with `/`.
pub fn destination(root: &str, path: &Vec<String>) -> (full: String)
    ensures
        full@ == path_under(root@, path.deep_view()),
{
    let mut full = String::from_str(root);
    let mut i: usize = 0;
    proof {
        assert(path.deep_view().take(0) =~= Seq::<Seq<char>>::empty());
    }
    while i < path.len()
        invariant
            i <= path.len(),
            full@ == path_under(root@, path.deep_view().take(i as int)),
        decreases path.len() - i,
    {
        proof {
            reveal_strlit("/");
            let grown = path.deep_view().take(i + 1);
            assert(grown.drop_last() =~= path.deep_view().take(i as int));
            assert(grown.last() == path[i as int]@);
        }
        full.append("/");
        full.append(path[i].as_str());
        i += 1;
    }
    assert(path.deep_view().take(path.len() as int) =~= path.deep_view());
    full
}

} // verus!

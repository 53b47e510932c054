//! Choice of the file that launches an installed package. Among the files of
//! an install tree that carry the executable extension, the one with the
//! lowest score wins; the first one met wins a tie.

use crate::text::{
    any_occurs_in, chars_of, chars_of_each, contains_any, ends_with, file_name, scan_segments,
    segments, tail_from,
};
use vstd::prelude::*;
use vstd::string::*;

verus! {

/// Score added for each path segment: shallower files are preferred.
pub const DEPTH_WEIGHT: i128 = 10;

/// Score added to a file whose name marks an uninstaller.
pub const UNINSTALLER_PENALTY: i128 = 1000;

/// Score added to a file whose name marks a setup program or installer.
pub const INSTALLER_PENALTY: i128 = 500;

/// Score added to a file whose name marks a launcher.
pub const LAUNCHER_PENALTY: i128 = 200;

/// Score taken off a file whose name marks the game itself.
pub const GAME_BONUS: i128 = 50;

/// The platform's executable extension and the marker lists by which file
/// names are ranked. Another platform swaps the lists, not the ranking.
#[derive(Debug)]
pub struct MarkerSet {
    /// The extension of executables, without its dot.
    pub extension: String,
    pub uninstaller: Vec<String>,
    pub installer: Vec<String>,
    pub launcher: Vec<String>,
    pub game: Vec<String>,
}

/// The mathematical content of a [`MarkerSet`].
pub struct MarkerSetView {
    pub extension: Seq<char>,
    pub uninstaller: Seq<Seq<char>>,
    pub installer: Seq<Seq<char>>,
    pub launcher: Seq<Seq<char>>,
    pub game: Seq<Seq<char>>,
}

impl View for MarkerSet {
    type V = MarkerSetView;

    open spec fn view(&self) -> MarkerSetView {
        MarkerSetView {
            extension: self.extension@,
            uninstaller: self.uninstaller.deep_view(),
            installer: self.installer.deep_view(),
            launcher: self.launcher.deep_view(),
            game: self.game.deep_view(),
        }
    }
}

/// The markers for Windows packages.
pub open spec fn windows_markers() -> MarkerSetView {
    MarkerSetView {
        extension: "exe"@,
        uninstaller: seq!["unins"@, "uninstall"@],
        installer: seq!["setup"@, "installer"@],
        launcher: seq!["launcher"@],
        game: seq!["game"@, "play"@],
    }
}

/// The number of segments of a path: `app/game.exe` has depth 2.
pub open spec fn depth(path: Seq<char>) -> nat {
    segments(path).len()
}

/// The file name is a non-empty stem, a dot and the extension.
pub open spec fn has_extension(name: Seq<char>, extension: Seq<char>) -> bool {
    name.len() > extension.len() + 1 && (seq!['.'] + extension).is_suffix_of(name)
}

/// The file at `path` counts as an executable.
pub open spec fn is_candidate(path: Seq<char>, markers: MarkerSetView) -> bool {
    has_extension(file_name(path), markers.extension)
}

/// `weight` if one of `list` occurs in `name`, else nothing.
pub open spec fn marked(name: Seq<char>, list: Seq<Seq<char>>, weight: int) -> int {
    if any_occurs_in(name, list) {
        weight
    } else {
        0
    }
}

/// The score of the file at `path`; lower is better.
pub open spec fn score(path: Seq<char>, markers: MarkerSetView) -> int {
    DEPTH_WEIGHT * depth(path) + marked(
        file_name(path),
        markers.uninstaller,
        UNINSTALLER_PENALTY as int,
    ) + marked(file_name(path), markers.installer, INSTALLER_PENALTY as int) + marked(
        file_name(path),
        markers.launcher,
        LAUNCHER_PENALTY as int,
    ) - marked(file_name(path), markers.game, GAME_BONUS as int)
}

/// `files[at]` is the launch target among `files`: an executable that no
/// other executable beats, and that none before it equals in score.
pub open spec fn is_best(files: Seq<Seq<char>>, markers: MarkerSetView, at: int) -> bool {
    &&& 0 <= at < files.len()
    &&& is_candidate(files[at], markers)
    &&& forall|j: int|
        0 <= j < files.len() && is_candidate(#[trigger] files[j], markers) ==> score(
            files[at],
            markers,
        ) <= score(files[j], markers)
    &&& forall|j: int|
        0 <= j < at && is_candidate(#[trigger] files[j], markers) ==> score(files[at], markers)
            < score(files[j], markers)
}

/// No file of the list counts as an executable.
pub open spec fn no_candidate(files: Seq<Seq<char>>, markers: MarkerSetView) -> bool {
    forall|j: int| 0 <= j < files.len() ==> !is_candidate(#[trigger] files[j], markers)
}

/// `choice` is what the locator answers for `files`.
pub open spec fn is_choice(files: Seq<Seq<char>>, markers: MarkerSetView, choice: Option<int>) -> bool {
    match choice {
        Some(at) => is_best(files, markers, at),
        None => no_candidate(files, markers),
    }
}

/// The answer for a list that grew by one file: that file, if it is an
/// executable and beats the answer so far; else the answer so far.
pub open spec fn next_choice(
    files: Seq<Seq<char>>,
    markers: MarkerSetView,
    choice: Option<int>,
    at: int,
) -> Option<int> {
    if is_candidate(files[at], markers) && (choice is None || score(files[at], markers) < score(
        files[choice->0],
        markers,
    )) {
        Some(at)
    } else {
        choice
    }
}

/// Walking the list file by file keeps the answer right.
proof fn lemma_choice_grows(
    files: Seq<Seq<char>>,
    markers: MarkerSetView,
    choice: Option<int>,
    at: int,
)
    requires
        0 <= at < files.len(),
        is_choice(files.take(at), markers, choice),
    ensures
        is_choice(files.take(at + 1), markers, next_choice(files, markers, choice, at)),
{
    let before = files.take(at);
    let after = files.take(at + 1);
    assert(after[at] == files[at]);
    assert forall|j: int| 0 <= j < at implies after[j] == before[j] && after[j] == files[j] by {}
    match next_choice(files, markers, choice, at) {
        Some(best) => {
            assert forall|j: int|
                0 <= j < after.len() && is_candidate(#[trigger] after[j], markers) implies score(
                after[best],
                markers,
            ) <= score(after[j], markers) by {
                if j < at {
                    assert(is_candidate(before[j], markers));
                }
            }
            assert forall|j: int|
                0 <= j < best && is_candidate(#[trigger] after[j], markers) implies score(
                after[best],
                markers,
            ) < score(after[j], markers) by {
                assert(is_candidate(before[j], markers));
            }
        },
        None => {
            assert forall|j: int| 0 <= j < after.len() implies !is_candidate(
                #[trigger] after[j],
                markers,
            ) by {
                if j < at {
                    assert(!is_candidate(before[j], markers));
                }
            }
        },
    }
}

/// The position of the launch target among `files`, if any file is an executable.
pub open spec fn located(files: Seq<Seq<char>>, markers: MarkerSetView) -> Option<int> {
    if no_candidate(files, markers) {
        None
    } else {
        Some(choose|at: int| is_best(files, markers, at))
    }
}

/// At most one position of a list is its launch target.
pub proof fn lemma_best_is_unique(files: Seq<Seq<char>>, markers: MarkerSetView, a: int, b: int)
    requires
        is_best(files, markers, a),
        is_best(files, markers, b),
    ensures
        a == b,
{
    if a < b {
        assert(is_candidate(files[a], markers));
    } else if b < a {
        assert(is_candidate(files[b], markers));
    }
}

/// The answer after the first `n` files have been walked.
spec fn choice_upto(files: Seq<Seq<char>>, markers: MarkerSetView, n: nat) -> Option<int>
    decreases n,
{
    if n == 0 {
        None
    } else {
        next_choice(files, markers, choice_upto(files, markers, (n - 1) as nat), n - 1)
    }
}

proof fn lemma_choice_upto(files: Seq<Seq<char>>, markers: MarkerSetView, n: nat)
    requires
        n <= files.len(),
    ensures
        is_choice(files.take(n as int), markers, choice_upto(files, markers, n)),
    decreases n,
{
    if n > 0 {
        lemma_choice_upto(files, markers, (n - 1) as nat);
        lemma_choice_grows(files, markers, choice_upto(files, markers, (n - 1) as nat), n - 1);
    }
}

/// Among files of which one is an executable, one is the launch target:
/// what `located` names is the launch target, and it names none only where
/// no file is an executable.
pub proof fn lemma_located(files: Seq<Seq<char>>, markers: MarkerSetView)
    ensures
        match located(files, markers) {
            Some(at) => is_best(files, markers, at),
            None => no_candidate(files, markers),
        },
{
    lemma_choice_upto(files, markers, files.len());
    assert(files.take(files.len() as int) =~= files);
    match choice_upto(files, markers, files.len()) {
        Some(at) => {
            assert(is_best(files, markers, at));
            assert(is_candidate(files[at], markers));
        },
        None => {},
    }
}

/// A marker set with its strings taken apart into characters once.
struct PreparedMarkers {
    dotted_extension: Vec<char>,
    uninstaller: Vec<Vec<char>>,
    installer: Vec<Vec<char>>,
    launcher: Vec<Vec<char>>,
    game: Vec<Vec<char>>,
}

impl PreparedMarkers {
    spec fn stands_for(&self, markers: MarkerSetView) -> bool {
        &&& self.dotted_extension@ == seq!['.'] + markers.extension
        &&& self.uninstaller.deep_view() == markers.uninstaller
        &&& self.installer.deep_view() == markers.installer
        &&& self.launcher.deep_view() == markers.launcher
        &&& self.game.deep_view() == markers.game
    }

    fn prepare(markers: &MarkerSet) -> (prepared: PreparedMarkers)
        ensures
            prepared.stands_for(markers@),
    {
        let extension = chars_of(markers.extension.as_str());
        let mut dotted: Vec<char> = Vec::new();
        dotted.push('.');
        let mut i: usize = 0;
        while i < extension.len()
            invariant
                i <= extension.len(),
                dotted@ == seq!['.'] + extension@.take(i as int),
            decreases extension.len() - i,
        {
            dotted.push(extension[i]);
            i += 1;
            assert(dotted@ =~= seq!['.'] + extension@.take(i as int));
        }
        assert(extension@.take(extension.len() as int) =~= extension@);
        PreparedMarkers {
            dotted_extension: dotted,
            uninstaller: chars_of_each(&markers.uninstaller),
            installer: chars_of_each(&markers.installer),
            launcher: chars_of_each(&markers.launcher),
            game: chars_of_each(&markers.game),
        }
    }

    /// Whether the file at `path` is an executable, and its score.
    fn rate(&self, path: &str, Ghost(markers): Ghost<MarkerSetView>) -> (rated: (bool, i128))
        requires
            self.stands_for(markers),
        ensures
            rated.0 == is_candidate(path@, markers),
            rated.1 == score(path@, markers),
    {
        let chars = chars_of(path);
        let (separators, start) = scan_segments(&chars);
        let name = tail_from(&chars, start);
        let candidate = name.len() > self.dotted_extension.len() && ends_with(
            &name,
            &self.dotted_extension,
        );
        let mut total: i128 = (separators as i128 + 1) * DEPTH_WEIGHT;
        if contains_any(&name, &self.uninstaller) {
            total = total + UNINSTALLER_PENALTY;
        }
        if contains_any(&name, &self.installer) {
            total = total + INSTALLER_PENALTY;
        }
        if contains_any(&name, &self.launcher) {
            total = total + LAUNCHER_PENALTY;
        }
        if contains_any(&name, &self.game) {
            total = total - GAME_BONUS;
        }
        (candidate, total)
    }
}

impl MarkerSet {
    /// The markers for Windows packages: executables end in `.exe`.
    pub fn windows() -> (markers: MarkerSet)
        ensures
            markers@ == windows_markers(),
    {
        let mut uninstaller: Vec<String> = Vec::new();
        uninstaller.push(String::from_str("unins"));
        uninstaller.push(String::from_str("uninstall"));
        let mut installer: Vec<String> = Vec::new();
        installer.push(String::from_str("setup"));
        installer.push(String::from_str("installer"));
        let mut launcher: Vec<String> = Vec::new();
        launcher.push(String::from_str("launcher"));
        let mut game: Vec<String> = Vec::new();
        game.push(String::from_str("game"));
        game.push(String::from_str("play"));
        let markers = MarkerSet {
            extension: String::from_str("exe"),
            uninstaller,
            installer,
            launcher,
            game,
        };
        proof {
            assert(markers@.uninstaller =~= windows_markers().uninstaller);
            assert(markers@.installer =~= windows_markers().installer);
            assert(markers@.launcher =~= windows_markers().launcher);
            assert(markers@.game =~= windows_markers().game);
        }
        markers
    }
}

/// Whether the file at `path` carries the executable extension.
pub fn is_executable(path: &str, markers: &MarkerSet) -> (candidate: bool)
    ensures
        candidate == is_candidate(path@, markers@),
{
    let prepared = PreparedMarkers::prepare(markers);
    prepared.rate(path, Ghost(markers@)).0
}

/// The score of the file at `path`; lower is better.
pub fn score_of(path: &str, markers: &MarkerSet) -> (points: i128)
    ensures
        points == score(path@, markers@),
{
    let prepared = PreparedMarkers::prepare(markers);
    prepared.rate(path, Ghost(markers@)).1
}

/// Picks the launch target among `files`, the files of an install tree in
/// the order in which the tree was walked. Returns its position, or `None`
/// when no file is an executable.
pub fn locate_executable(files: &Vec<String>, markers: &MarkerSet) -> (found: Option<usize>)
    ensures
        match found {
            Some(at) => is_best(files.deep_view(), markers@, at as int) && located(
                files.deep_view(),
                markers@,
            ) == Some(at as int),
            None => no_candidate(files.deep_view(), markers@) && located(
                files.deep_view(),
                markers@,
            ) is None,
        },
{
    let prepared = PreparedMarkers::prepare(markers);
    let ghost list = files.deep_view();
    let ghost rules = markers@;
    let ghost mut choice: Option<int> = None;
    let mut best: Option<(usize, i128)> = None;
    let mut i: usize = 0;
    while i < files.len()
        invariant
            i <= files.len(),
            list == files.deep_view(),
            rules == markers@,
            prepared.stands_for(rules),
            is_choice(list.take(i as int), rules, choice),
            match best {
                Some((at, points)) => choice == Some(at as int) && at < i && points == score(
                    list[at as int],
                    rules,
                ),
                None => choice is None,
            },
        decreases files.len() - i,
    {
        assert(list[i as int] == files[i as int]@);
        let (candidate, points) = prepared.rate(files[i].as_str(), Ghost(rules));
        proof {
            lemma_choice_grows(list, rules, choice, i as int);
            choice = next_choice(list, rules, choice, i as int);
        }
        let better = match best {
            Some((_, least)) => points < least,
            None => true,
        };
        if candidate && better {
            best = Some((i, points));
        }
        i += 1;
    }
    proof {
        assert(list.take(files.len() as int) =~= list);
        if choice is Some {
            let at = choice->0;
            assert(is_candidate(list[at], rules));
            lemma_best_is_unique(list, rules, at, choose|at: int| is_best(list, rules, at));
        }
    }
    match best {
        Some((at, _)) => Some(at),
        None => None,
    }
}

} // verus!

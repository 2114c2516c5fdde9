//! Collision-safe placement: the name a file gets in its destination folder,
//! chosen so that no file that is already there is overwritten.

use vstd::prelude::*;
use vstd::set_lib::{lemma_int_range, lemma_len_subset, lemma_map_size, set_int_range};
use vstd::relations::injective_on;
use vstd::string::StringExecFns;
use crate::config::{destination_for_file, rule_file_name, text_of, Config};
use crate::text::{
    decimal, lemma_decimal_injective, lemma_decimal_len, push_char, push_decimal, same_text,
    to_chars,
};

verus! {

/// The position of the last `.` in a file name, or -1 where it has none.
pub open spec fn last_dot(name: Seq<char>) -> int
    decreases name.len(),
{
    if name.len() == 0 {
        -1
    } else if name.last() == '.' {
        name.len() - 1
    } else {
        last_dot(name.drop_last())
    }
}

/// Whether a file name splits into stem and extension: it has a `.` that is
/// not its first character, and it is not the name `..`.
pub open spec fn splits(name: Seq<char>) -> bool {
    last_dot(name) > 0 && name != seq!['.', '.']
}

/// The stem of a file name: what stands before its last `.`, or the whole
/// name where it does not split.
pub open spec fn stem_of(name: Seq<char>) -> Seq<char> {
    if splits(name) {
        name.subrange(0, last_dot(name))
    } else {
        name
    }
}

/// The extension of a file name: what stands after its last `.`, where the
/// name splits.
pub open spec fn extension_of(name: Seq<char>) -> Option<Seq<char>> {
    if splits(name) {
        Some(name.subrange(last_dot(name) + 1, name.len() as int))
    } else {
        None
    }
}

/// The last `.` lies inside the name and no `.` follows it.
pub proof fn lemma_last_dot(name: Seq<char>)
    ensures
        -1 <= last_dot(name) < name.len(),
        last_dot(name) >= 0 ==> name[last_dot(name)] == '.',
        forall|i: int| last_dot(name) < i < name.len() ==> name[i] != '.',
    decreases name.len(),
{
    if name.len() > 0 && name.last() != '.' {
        lemma_last_dot(name.drop_last());
        assert forall|i: int| last_dot(name) < i < name.len() implies name[i] != '.' by {
            if i < name.len() - 1 {
                assert(name.drop_last()[i] == name[i]);
            }
        }
        if last_dot(name) >= 0 {
            assert(name.drop_last()[last_dot(name)] == name[last_dot(name)]);
        }
    }
}

/// A file name in its two parts.
#[derive(Debug, PartialEq, Eq)]
pub struct NameParts {
    pub stem: String,
    pub extension: Option<String>,
}

/// The characters `chars[from..to]` as a text.
fn text_between(chars: &Vec<char>, from: usize, to: usize) -> (text: String)
    requires
        from <= to <= chars.len(),
    ensures
        text@ == chars@.subrange(from as int, to as int),
{
    let mut text = String::new();
    let mut i: usize = from;
    while i < to
        invariant
            from <= i <= to <= chars.len(),
            text@ == chars@.subrange(from as int, i as int),
        decreases to - i,
    {
        push_char(&mut text, chars[i]);
        i += 1;
    }
    text
}

/// Splits a file name at its last `.` into stem and extension. A name
/// without `.`, one whose only `.` comes first, and the name `..` have no
/// extension and are their own stem.
pub fn split_name(name: &str) -> (parts: NameParts)
    ensures
        parts.stem@ == stem_of(name@),
        match parts.extension {
            Some(extension) => extension_of(name@) == Some(extension@),
            None => extension_of(name@) is None,
        },
{
    let chars = to_chars(name);
    let mut dot: Option<usize> = None;
    let mut i: usize = 0;
    while i < chars.len()
        invariant
            i <= chars.len(),
            chars@ == name@,
            match dot {
                Some(at) => at == last_dot(name@.subrange(0, i as int)),
                None => last_dot(name@.subrange(0, i as int)) == -1,
            },
        decreases chars.len() - i,
    {
        proof {
            assert(name@.subrange(0, i + 1).drop_last() =~= name@.subrange(0, i as int));
        }
        if chars[i] == '.' {
            dot = Some(i);
        }
        i += 1;
    }
    proof {
        assert(name@.subrange(0, i as int) =~= name@);
        lemma_last_dot(name@);
        reveal_strlit("..");
        assert(".."@ =~= seq!['.', '.']);
    }
    match dot {
        Some(at) => {
            if at > 0 && !same_text(name, "..") {
                NameParts {
                    stem: text_between(&chars, 0, at),
                    extension: Some(text_between(&chars, at + 1, chars.len())),
                }
            } else {
                NameParts { stem: String::from_str(name), extension: None }
            }
        },
        None => NameParts { stem: String::from_str(name), extension: None },
    }
}

/// What follows the number in a numbered name: the extension with its `.`,
/// or nothing where there is no extension or an empty one.
pub open spec fn name_tail(name: Seq<char>) -> Seq<char> {
    match extension_of(name) {
        Some(extension) => if extension.len() > 0 {
            seq!['.'] + extension
        } else {
            Seq::empty()
        },
        None => Seq::empty(),
    }
}

/// A file name with ` (n)` put before its extension, or at its end where it
/// has none: `report.txt` becomes `report (1).txt`.
pub open spec fn numbered_name(name: Seq<char>, number: nat) -> Seq<char> {
    stem_of(name) + seq![' ', '('] + decimal(number) + seq![')'] + name_tail(name)
}

/// The name tried at each attempt to place a file: its own name first, then
/// the name numbered 1, 2, 3 and so on.
pub open spec fn candidate_name(name: Seq<char>, attempt: nat) -> Seq<char> {
    if attempt == 0 {
        name
    } else {
        numbered_name(name, attempt)
    }
}

/// The name to try at an attempt.
pub fn candidate(name: &str, attempt: u64) -> (tried: String)
    ensures
        tried@ == candidate_name(name@, attempt as nat),
{
    if attempt == 0 {
        return String::from_str(name);
    }
    let parts = split_name(name);
    let mut tried = parts.stem;
    tried.append(" (");
    push_decimal(&mut tried, attempt);
    tried.append(")");
    match parts.extension {
        Some(extension) => {
            if !extension.as_str().is_empty() {
                tried.append(".");
                tried.append(extension.as_str());
            }
        },
        None => {},
    }
    proof {
        reveal_strlit(" (");
        reveal_strlit(")");
        reveal_strlit(".");
        assert(" ("@ =~= seq![' ', '(']);
        assert(")"@ =~= seq![')']);
        assert("."@ =~= seq!['.']);
        assert(tried@ =~= numbered_name(name@, attempt as nat));
    }
    tried
}

/// A folder and a name as one path: the two joined by `/`, which is left out
/// after an empty folder and after one that ends in `/`. A name that starts
/// with `/` is a path of its own and stands alone.
pub open spec fn joined(folder: Seq<char>, name: Seq<char>) -> Seq<char> {
    if name.len() > 0 && name[0] == '/' {
        name
    } else if folder.len() == 0 || folder.last() == '/' {
        folder + name
    } else {
        folder + seq!['/'] + name
    }
}

/// Joins a folder and a name into a path.
pub fn join_path(folder: &str, name: &str) -> (path: String)
    ensures
        path@ == joined(folder@, name@),
{
    let name_chars = to_chars(name);
    if name_chars.len() > 0 && name_chars[0] == '/' {
        return String::from_str(name);
    }
    let folder_chars = to_chars(folder);
    let mut path = String::from_str(folder);
    if folder_chars.len() > 0 && folder_chars[folder_chars.len() - 1] != '/' {
        path.append("/");
    }
    path.append(name);
    proof {
        reveal_strlit("/");
        assert("/"@ =~= seq!['/']);
        assert(path@ =~= joined(folder@, name@));
    }
    path
}

/// The last `.` of a stem, a `.` and an extension without `.` is the one
/// between them.
proof fn lemma_last_dot_between(stem: Seq<char>, extension: Seq<char>)
    requires
        !extension.contains('.'),
    ensures
        last_dot(stem + seq!['.'] + extension) == stem.len(),
    decreases extension.len(),
{
    let name = stem + seq!['.'] + extension;
    if extension.len() > 0 {
        let shorter = extension.drop_last();
        assert(name.last() == extension.last());
        assert(extension.contains(extension.last()));
        assert(name.drop_last() =~= stem + seq!['.'] + shorter);
        assert forall|i: int| 0 <= i < shorter.len() implies shorter[i] != '.' by {
            assert(extension.contains(extension[i]));
        }
        lemma_last_dot_between(stem, shorter);
    }
}

/// The names that a file `stem.ext` is tried under, written out: first
/// `stem.ext` itself, then `stem (1).ext`, `stem (2).ext` and so on.
pub proof fn lemma_numbered_name_form(stem: Seq<char>, extension: Seq<char>, attempt: nat)
    requires
        stem.len() > 0,
        extension.len() > 0,
        !extension.contains('.'),
    ensures
        candidate_name(stem + seq!['.'] + extension, attempt) == if attempt == 0 {
            stem + seq!['.'] + extension
        } else {
            stem + seq![' ', '('] + decimal(attempt) + seq![')', '.'] + extension
        },
{
    let name = stem + seq!['.'] + extension;
    lemma_last_dot_between(stem, extension);
    assert(name.subrange(0, stem.len() as int) =~= stem);
    assert(name.subrange(stem.len() as int + 1, name.len() as int) =~= extension);
    if attempt > 0 {
        assert(numbered_name(name, attempt) =~= stem + seq![' ', '('] + decimal(attempt) + seq![
            ')',
            '.',
        ] + extension);
    }
}

/// A file name is as long as its stem and what follows the stem.
pub proof fn lemma_name_parts(name: Seq<char>)
    ensures
        splits(name) ==> name.len() == stem_of(name).len() + 1 + extension_of(name)->0.len(),
        !splits(name) ==> stem_of(name) == name,
        stem_of(name).len() + name_tail(name).len() <= name.len(),
{
    lemma_last_dot(name);
}

/// A numbered name is longer than the name it was made from.
pub proof fn lemma_numbered_name_longer(name: Seq<char>, number: nat)
    ensures
        numbered_name(name, number).len() > name.len(),
{
    lemma_name_parts(name);
    lemma_decimal_len(number);
}

/// No two attempts try the same name.
pub proof fn lemma_candidates_differ(name: Seq<char>, a: nat, b: nat)
    requires
        candidate_name(name, a) == candidate_name(name, b),
    ensures
        a == b,
{
    if a == 0 && b != 0 {
        lemma_numbered_name_longer(name, b);
    } else if a != 0 && b == 0 {
        lemma_numbered_name_longer(name, a);
    } else if a != 0 && b != 0 {
        let head = stem_of(name) + seq![' ', '('];
        let tail = seq![')'] + name_tail(name);
        let left = numbered_name(name, a);
        let right = numbered_name(name, b);
        assert(left =~= head + decimal(a) + tail);
        assert(right =~= head + decimal(b) + tail);
        assert(left.len() == head.len() + decimal(a).len() + tail.len());
        assert(right.len() == head.len() + decimal(b).len() + tail.len());
        assert forall|i: int| 0 <= i < decimal(a).len() implies decimal(a)[i] == decimal(b)[i] by {
            assert(left[head.len() + i] == decimal(a)[i]);
            assert(right[head.len() + i] == decimal(b)[i]);
        }
        assert(decimal(a) =~= decimal(b));
        lemma_decimal_injective(a, b);
    }
}

/// Attempt `attempt` is the first whose name is not among `taken`.
pub open spec fn is_first_free(taken: Set<Seq<char>>, name: Seq<char>, attempt: nat) -> bool {
    &&& !taken.contains(candidate_name(name, attempt))
    &&& forall|earlier: nat|
        earlier < attempt ==> taken.contains(#[trigger] candidate_name(name, earlier))
}

/// The name a file gets in a folder that holds the names `taken`: the first
/// candidate that is not among them.
pub open spec fn placed_name(taken: Set<Seq<char>>, name: Seq<char>) -> Seq<char> {
    candidate_name(name, choose|attempt: nat| is_first_free(taken, name, attempt))
}

/// Among the first `bound + 1` candidates one is free, where at most `bound`
/// names are taken.
pub proof fn lemma_free_candidate_within(taken: Set<Seq<char>>, name: Seq<char>, bound: nat)
    requires
        taken.finite(),
        taken.len() <= bound,
    ensures
        exists|attempt: nat|
            attempt <= bound && !taken.contains(#[trigger] candidate_name(name, attempt)),
{
    if forall|attempt: nat|
        attempt <= bound ==> taken.contains(#[trigger] candidate_name(name, attempt)) {
        let attempts = set_int_range(0, bound as int + 1);
        let tried = |attempt: int| candidate_name(name, attempt as nat);
        lemma_int_range(0, bound as int + 1);
        assert(injective_on(tried, attempts)) by {
            assert forall|a: int, b: int|
                attempts.contains(a) && attempts.contains(b) && #[trigger] tried(a)
                    == #[trigger] tried(b) implies a == b by {
                lemma_candidates_differ(name, a as nat, b as nat);
            }
        }
        let names = attempts.map(tried);
        lemma_map_size(attempts, names, tried);
        assert(names.subset_of(taken)) by {
            assert forall|tried_name: Seq<char>| names.contains(tried_name) implies taken.contains(
                tried_name,
            ) by {
                let attempt = choose|attempt: int|
                    attempts.contains(attempt) && tried_name == tried(attempt);
                assert(taken.contains(candidate_name(name, attempt as nat)));
            }
        }
        lemma_len_subset(names, taken);
    }
}

/// Where some candidate up to `limit` is free, one attempt is the first free.
proof fn lemma_first_free_upto(taken: Set<Seq<char>>, name: Seq<char>, limit: nat)
    requires
        !taken.contains(candidate_name(name, limit)),
    ensures
        exists|attempt: nat| attempt <= limit && is_first_free(taken, name, attempt),
    decreases limit,
{
    if exists|earlier: nat| earlier < limit && !taken.contains(candidate_name(name, earlier)) {
        let earlier = choose|earlier: nat|
            earlier < limit && !taken.contains(candidate_name(name, earlier));
        lemma_first_free_upto(taken, name, earlier);
    } else {
        assert(is_first_free(taken, name, limit));
    }
}

/// In a folder with finitely many names every file can be placed: some
/// attempt is the first free one, the name it tries is `placed_name`, and no
/// other attempt is the first free.
pub proof fn lemma_placed_name(taken: Set<Seq<char>>, name: Seq<char>)
    requires
        taken.finite(),
    ensures
        exists|attempt: nat| is_first_free(taken, name, attempt),
        !taken.contains(placed_name(taken, name)),
        forall|attempt: nat| #[trigger]
            is_first_free(taken, name, attempt) ==> placed_name(taken, name) == candidate_name(
                name,
                attempt,
            ),
{
    lemma_free_candidate_within(taken, name, taken.len());
    let free = choose|attempt: nat|
        attempt <= taken.len() && !taken.contains(#[trigger] candidate_name(name, attempt));
    lemma_first_free_upto(taken, name, free);
    let chosen = choose|attempt: nat| is_first_free(taken, name, attempt);
    assert forall|attempt: nat| #[trigger] is_first_free(taken, name, attempt) implies attempt
        == chosen by {
        if attempt < chosen {
            assert(taken.contains(candidate_name(name, attempt)));
        } else if chosen < attempt {
            assert(taken.contains(candidate_name(name, chosen)));
        }
    }
}

/// The search for a free name in a destination folder. It stands at one
/// attempt; whoever runs it looks whether the path of that attempt is
/// occupied and, where it is, moves the search on.
#[derive(Debug, PartialEq, Eq)]
pub struct PlacementSearch {
    pub folder: String,
    pub name: String,
    pub attempt: u64,
}

impl PlacementSearch {
    /// The file name that the current attempt tries.
    pub open spec fn tried_name(&self) -> Seq<char> {
        candidate_name(self.name@, self.attempt as nat)
    }

    /// The path that the current attempt tries.
    pub open spec fn tried_path(&self) -> Seq<char> {
        joined(self.folder@, self.tried_name())
    }

    /// A search for a place for `name` in `folder`, at its first attempt: the
    /// name itself.
    pub fn new(folder: &str, name: &str) -> (search: Self)
        ensures
            search.folder@ == folder@,
            search.name@ == name@,
            search.attempt == 0,
    {
        PlacementSearch {
            folder: String::from_str(folder),
            name: String::from_str(name),
            attempt: 0,
        }
    }

    /// The file name to look for at the current attempt.
    pub fn file_name(&self) -> (name: String)
        ensures
            name@ == self.tried_name(),
    {
        candidate(self.name.as_str(), self.attempt)
    }

    /// The path to look for at the current attempt.
    pub fn target(&self) -> (path: String)
        ensures
            path@ == self.tried_path(),
    {
        let name = self.file_name();
        join_path(self.folder.as_str(), name.as_str())
    }

    /// Moves on to the next attempt after the current one was found occupied.
    /// The answer is `false`, and the search unchanged, only where the
    /// attempts are used up.
    pub fn advance(&mut self) -> (advanced: bool)
        ensures
            advanced == (old(self).attempt < u64::MAX),
            advanced ==> final(self).attempt == old(self).attempt + 1,
            !advanced ==> final(self).attempt == old(self).attempt,
            final(self).folder == old(self).folder,
            final(self).name == old(self).name,
    {
        if self.attempt < u64::MAX {
            self.attempt = self.attempt + 1;
            true
        } else {
            false
        }
    }
}

/// Why a file was not moved.
#[derive(Debug, PartialEq, Eq)]
pub enum OrganizeError {
    /// No rule gives the file a destination.
    NoMatchingRule { file_name: String },
    /// The destination folder could not be created.
    CreateFolder { detail: String },
    /// The path of the file ends in no file name.
    InvalidFileName,
    /// The file could not be renamed into its place.
    Rename { detail: String },
    /// Every name that could be tried is occupied.
    NoFreeName,
}

impl OrganizeError {
    /// The error in words.
    pub open spec fn text(self) -> Seq<char> {
        match self {
            OrganizeError::NoMatchingRule { file_name } => "No matching rule found for file: "@
                + file_name@,
            OrganizeError::CreateFolder { detail } => "Failed to create destination folder: "@
                + detail@,
            OrganizeError::InvalidFileName => "Invalid file name"@,
            OrganizeError::Rename { detail } => "Failed to move file: "@ + detail@,
            OrganizeError::NoFreeName => "No free name in destination folder"@,
        }
    }

    /// The error in words.
    pub fn message(&self) -> (message: String)
        ensures
            message@ == self.text(),
    {
        match self {
            OrganizeError::NoMatchingRule { file_name } => String::from_str(
                "No matching rule found for file: ",
            ).concat(file_name.as_str()),
            OrganizeError::CreateFolder { detail } => String::from_str(
                "Failed to create destination folder: ",
            ).concat(detail.as_str()),
            OrganizeError::InvalidFileName => String::from_str("Invalid file name"),
            OrganizeError::Rename { detail } => String::from_str("Failed to move file: ").concat(
                detail.as_str(),
            ),
            OrganizeError::NoFreeName => String::from_str("No free name in destination folder"),
        }
    }
}

/// The characters of an optional text.
pub open spec fn chars_of(text: Option<&str>) -> Option<Seq<char>> {
    match text {
        Some(t) => Some(t@),
        None => None,
    }
}

/// The name under which a file is placed: the new name where one is given
/// and not empty, else the file's own name.
pub open spec fn target_name(file_name: Seq<char>, new_name: Option<Seq<char>>) -> Seq<char> {
    match new_name {
        Some(renamed) => if renamed.len() > 0 {
            renamed
        } else {
            file_name
        },
        None => file_name,
    }
}

/// Starts the move of a file into `destination`, once that folder exists. A
/// path without a file name cannot be moved. Otherwise the answer is the
/// search for a free name, at its first attempt: the new name where one is
/// given, else the file's own.
pub fn organize_file_to_destination(
    file_name: Option<&str>,
    destination: &str,
    new_name: Option<&str>,
) -> (search: Result<PlacementSearch, OrganizeError>)
    ensures
        match file_name {
            Some(own) => search matches Ok(started) && started.folder@ == destination@
                && started.name@ == target_name(own@, chars_of(new_name)) && started.attempt == 0,
            None => search matches Err(error) && error is InvalidFileName,
        },
{
    match file_name {
        Some(own) => {
            let name = match new_name {
                Some(renamed) => if renamed.is_empty() {
                    own
                } else {
                    renamed
                },
                None => own,
            };
            Ok(PlacementSearch::new(destination, name))
        },
        None => Err(OrganizeError::InvalidFileName),
    }
}

/// Finds the destination of a file by the rules, as the first step of
/// organising it: the folder that `organize_file_to_destination` is then
/// given. A file that no rule places is an error that names the file.
pub fn organize_file(file_name: Option<&str>, config: &Config) -> (destination: Result<
    String,
    OrganizeError,
>)
    ensures
        match destination_for_file(config.rules@, chars_of(file_name)) {
            Some(folder) => destination matches Ok(found) && found@ == folder,
            None => destination matches Err(error) && error matches OrganizeError::NoMatchingRule {
                file_name: unplaced,
            } && unplaced@ == rule_file_name(chars_of(file_name)),
        },
{
    match config.destination_for_file(file_name) {
        Some(folder) => Ok(folder),
        None => {
            let unplaced = match file_name {
                Some(name) => String::from_str(name),
                None => String::new(),
            };
            Err(OrganizeError::NoMatchingRule { file_name: unplaced })
        },
    }
}

/// The names in a folder listing, as a set.
pub open spec fn names_of(listing: Seq<String>) -> Set<Seq<char>> {
    listing.map_values(|entry: String| entry@).to_set()
}

/// Whether a name stands in a folder listing.
pub fn is_listed(listing: &Vec<String>, name: &str) -> (listed: bool)
    ensures
        listed == names_of(listing@).contains(name@),
{
    let ghost names = listing@.map_values(|entry: String| entry@);
    let mut i: usize = 0;
    while i < listing.len()
        invariant
            i <= listing.len(),
            names == listing@.map_values(|entry: String| entry@),
            forall|k: int| 0 <= k < i ==> names[k] != name@,
        decreases listing.len() - i,
    {
        if same_text(listing[i].as_str(), name) {
            assert(names[i as int] == name@);
            assert(names.contains(name@));
            return true;
        }
        i += 1;
    }
    assert(!names.contains(name@));
    false
}

/// The name a file gets in a folder with this listing: its own name where
/// that is free, else the first numbered name that is. The name is never one
/// of the listing.
pub fn unused_name(listing: &Vec<String>, name: &str) -> (free: String)
    ensures
        free@ == placed_name(names_of(listing@), name@),
        !names_of(listing@).contains(free@),
{
    let ghost taken = names_of(listing@);
    proof {
        listing@.map_values(|entry: String| entry@).lemma_cardinality_of_set();
        lemma_placed_name(taken, name@);
    }
    let mut search = PlacementSearch::new("", name);
    loop
        invariant
            taken == names_of(listing@),
            taken.finite(),
            taken.len() <= listing@.len(),
            search.name@ == name@,
            search.attempt <= listing@.len(),
            forall|earlier: nat|
                earlier < search.attempt ==> taken.contains(
                    #[trigger] candidate_name(name@, earlier),
                ),
        decreases listing@.len() - search.attempt,
    {
        let tried = search.file_name();
        if !is_listed(listing, tried.as_str()) {
            proof {
                assert(is_first_free(taken, name@, search.attempt as nat));
                lemma_placed_name(taken, name@);
            }
            return tried;
        }
        proof {
            lemma_free_candidate_within(taken, name@, listing@.len());
            let free = choose|attempt: nat|
                attempt <= listing@.len() && !taken.contains(
                    #[trigger] candidate_name(name@, attempt),
                );
            assert(free > search.attempt);
            assert(search.attempt < listing.len() <= usize::MAX <= u64::MAX);
        }
        let advanced = search.advance();
        assert(advanced);
    }
}

/// A folder after `arrivals` files named `name` were placed in it, one after
/// the other, each under the name that was free when it came.
pub open spec fn after_arrivals(taken: Set<Seq<char>>, name: Seq<char>, arrivals: nat) -> Set<
    Seq<char>,
>
    decreases arrivals,
{
    if arrivals == 0 {
        taken
    } else {
        let before = after_arrivals(taken, name, (arrivals - 1) as nat);
        before.insert(placed_name(before, name))
    }
}

/// Placing keeps what was there: the names taken before are taken after, the
/// folder stays finite, and every arrival takes a name that nothing held
/// when it came. So no file is overwritten and no two arrivals share a name.
pub proof fn lemma_arrivals_never_overwrite(taken: Set<Seq<char>>, name: Seq<char>, arrivals: nat)
    requires
        taken.finite(),
    ensures
        after_arrivals(taken, name, arrivals).finite(),
        taken.subset_of(after_arrivals(taken, name, arrivals)),
        forall|earlier: nat|
            earlier < arrivals ==> {
                let before = #[trigger] after_arrivals(taken, name, earlier);
                &&& !before.contains(placed_name(before, name))
                &&& after_arrivals(taken, name, arrivals).contains(placed_name(before, name))
            },
    decreases arrivals,
{
    if arrivals > 0 {
        let previous = (arrivals - 1) as nat;
        lemma_arrivals_never_overwrite(taken, name, previous);
        let before = after_arrivals(taken, name, previous);
        lemma_placed_name(before, name);
        assert forall|earlier: nat| earlier < arrivals implies {
            let folder = #[trigger] after_arrivals(taken, name, earlier);
            &&& !folder.contains(placed_name(folder, name))
            &&& after_arrivals(taken, name, arrivals).contains(placed_name(folder, name))
        } by {
            if earlier < previous {
                let folder = after_arrivals(taken, name, earlier);
                assert(before.contains(placed_name(folder, name)));
            }
        }
    }
}

/// Files of one name that arrive in a folder that holds none of their
/// candidate names take those names in order: the first keeps its name, the
/// second gets the name numbered 1, the third the name numbered 2, and so on.
/// The names are all different.
pub proof fn lemma_arrivals_take_names_in_order(
    taken: Set<Seq<char>>,
    name: Seq<char>,
    arrivals: nat,
)
    requires
        taken.finite(),
        forall|attempt: nat|
            attempt < arrivals ==> !taken.contains(#[trigger] candidate_name(name, attempt)),
    ensures
        forall|k: nat|
            1 <= k <= arrivals ==> placed_name(
                #[trigger] after_arrivals(taken, name, (k - 1) as nat),
                name,
            ) == candidate_name(name, (k - 1) as nat),
        forall|attempt: nat|
            after_arrivals(taken, name, arrivals).contains(#[trigger] candidate_name(name, attempt))
                <==> attempt < arrivals || taken.contains(candidate_name(name, attempt)),
        forall|a: nat, b: nat|
            a < b < arrivals ==> #[trigger] candidate_name(name, a) != #[trigger] candidate_name(
                name,
                b,
            ),
    decreases arrivals,
{
    assert forall|a: nat, b: nat| a < b < arrivals implies #[trigger] candidate_name(name, a)
        != #[trigger] candidate_name(name, b) by {
        if candidate_name(name, a) == candidate_name(name, b) {
            lemma_candidates_differ(name, a, b);
        }
    }
    if arrivals > 0 {
        let previous = (arrivals - 1) as nat;
        lemma_arrivals_take_names_in_order(taken, name, previous);
        lemma_arrivals_never_overwrite(taken, name, previous);
        let before = after_arrivals(taken, name, previous);
        assert(!before.contains(candidate_name(name, previous)));
        assert(is_first_free(before, name, previous));
        lemma_placed_name(before, name);
        assert(placed_name(before, name) == candidate_name(name, previous));
        assert forall|attempt: nat|
            after_arrivals(taken, name, arrivals).contains(
                #[trigger] candidate_name(name, attempt),
            ) <==> attempt < arrivals || taken.contains(candidate_name(name, attempt)) by {
            if candidate_name(name, attempt) == candidate_name(name, previous) {
                lemma_candidates_differ(name, attempt, previous);
            }
        }
    }
}

} // verus!

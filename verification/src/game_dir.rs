//! The tables of a game directory, from its files to the one that is used.
use crate::chars::{lemma_char_code, CharSet};
use crate::codepage::Codepage;
use crate::scan::{all_candidates, mappings, scan};
use crate::script::{script_chars, script_text};
use crate::select::{
    confirmed, count_hits, hits, is_choice, is_selection, law_confirmed_table_is_not_passed_over,
    law_full_match_is_confirmed, law_more_text_keeps_tables_confirmed,
    law_selected_table_matches_the_text, mapping_of, select,
};
use crate::shift_jis::ShiftJis;
use crate::uif::{json_document, stated_mapping, uif_config_table};
use std::collections::HashMap;
use vstd::prelude::*;

verus! {

broadcast use {
    vstd::map::group_map_axioms,
    vstd::set::group_set_axioms,
    vstd::std_specs::hash::group_hash_axioms,
};

/// Largest binary size worth scanning for a remap table.
pub const MAX_BINARY_SIZE: u64 = 64 * 1024 * 1024;

/// An ASCII capital as its small letter, any other character as it is.
pub open spec fn ascii_lower(c: char) -> char {
    if 'A' <= c <= 'Z' {
        (c as int + 32) as char
    } else {
        c
    }
}

/// Two strings match but for the case of ASCII letters.
pub open spec fn same_ignoring_case(a: Seq<char>, b: Seq<char>) -> bool {
    a.map_values(|c: char| ascii_lower(c)) == b.map_values(|c: char| ascii_lower(c))
}

/// `str::eq_ignore_ascii_case`: whether the strings match but for the case of
/// ASCII letters.
pub assume_specification[ str::eq_ignore_ascii_case ](a: &str, b: &str) -> (same: bool)
    ensures
        same == same_ignoring_case(a@, b@),
;

/// The extension of an engine binary.
pub open spec fn is_engine_extension(extension: Seq<char>) -> bool {
    same_ignoring_case(extension, "dll"@) || same_ignoring_case(extension, "exe"@)
}

/// What became known of a directory while it is searched.
pub enum DirEvent<'a> {
    /// The next entry, by the extension of its name where that is text.
    Listed(Option<&'a str>),
    /// The metadata of the entry.
    Metadata { is_file: bool, len: u64 },
    /// The contents of the entry.
    Contents(&'a [u8]),
    /// What was asked for could not be read.
    Unreadable,
}

/// What the search of a directory needs next.
#[derive(Clone, Copy, Debug, PartialEq, Eq, Structural)]
pub enum DirAction {
    /// The metadata of the entry.
    ReadMetadata,
    /// The contents of the entry.
    ReadContents,
    /// The next entry.
    NextEntry,
}

/// What an event calls for: only engine binaries are looked at, and of those
/// only files that are not too large.
pub open spec fn next_action(event: DirEvent) -> DirAction {
    match event {
        DirEvent::Listed(Some(extension)) if is_engine_extension(
            extension@,
        ) => DirAction::ReadMetadata,
        DirEvent::Metadata { is_file, len } if is_file && len
            <= MAX_BINARY_SIZE => DirAction::ReadContents,
        _ => DirAction::NextEntry,
    }
}

/// The tables that an event brings.
pub open spec fn new_tables(event: DirEvent) -> Seq<Map<char, char>> {
    match event {
        DirEvent::Contents(bytes) => all_candidates(bytes@),
        _ => Seq::empty(),
    }
}

/// The tables that a directory has before its binaries are searched: the one
/// that its `uif_config.json` states, where there is one.
pub open spec fn config_tables(config: Option<Seq<u8>>) -> Seq<Map<char, char>> {
    match config {
        Some(bytes) => match json_document(bytes) {
            Some(tree) => match stated_mapping(tree) {
                Some(table) => seq![table],
                None => Seq::empty(),
            },
            None => Seq::empty(),
        },
        None => Seq::empty(),
    }
}

/// Whether a file of that extension is an engine binary.
pub fn is_engine_binary(extension: Option<&str>) -> (engine: bool)
    ensures
        engine == (extension matches Some(text) && is_engine_extension(text@)),
{
    match extension {
        Some(text) => text.eq_ignore_ascii_case("dll") || text.eq_ignore_ascii_case("exe"),
        None => false,
    }
}

/// Begins the search of a directory, given the bytes of its `uif_config.json`
/// where it could be read. Such a config spells its mapping out, so it needs
/// none of the guessing below and may legitimately be shorter than a table
/// recovered from a binary.
pub fn begin_scan_dir(config: Option<&[u8]>) -> (tables: Vec<Codepage>)
    ensures
        mappings(tables@) == config_tables(
            match config {
                Some(bytes) => Some(bytes@),
                None => None,
            },
        ),
{
    let mut tables: Vec<Codepage> = Vec::new();
    if let Some(table) = uif_config_table(config) {
        tables.push(table);
    }
    assert(mappings(tables@) =~= config_tables(
        match config {
            Some(bytes) => Some(bytes@),
            None => None,
        },
    ));
    tables
}

/// Goes on with the search of a directory: takes in what became known, and says
/// what is needed next.
pub fn scan_dir(sjis: &ShiftJis, tables: &mut Vec<Codepage>, event: DirEvent) -> (action: DirAction)
    ensures
        action == next_action(event),
        mappings(final(tables)@) == mappings(old(tables)@) + new_tables(event),
{
    let ghost before = tables@;
    assert(mappings(before) + Seq::<Map<char, char>>::empty() =~= mappings(before));
    match event {
        DirEvent::Listed(extension) => {
            if is_engine_binary(extension) {
                DirAction::ReadMetadata
            } else {
                DirAction::NextEntry
            }
        },
        DirEvent::Metadata { is_file, len } => {
            if !is_file || len > MAX_BINARY_SIZE {
                DirAction::NextEntry
            } else {
                DirAction::ReadContents
            }
        },
        DirEvent::Contents(bytes) => {
            let mut found = scan(sjis, bytes);
            let ghost more = found@;
            tables.append(&mut found);
            assert(mappings(before + more) =~= mappings(before) + mappings(more));
            DirAction::NextEntry
        },
        DirEvent::Unreadable => DirAction::NextEntry,
    }
}

/// Candidate tables found in a game directory, plus the characters of that
/// release's scripts seen so far.
#[derive(Debug)]
struct DirScan {
    tables: Vec<Codepage>,
    text: CharSet,
}

/// What is known of a game directory.
#[verifier::ext_equal]
pub struct DirState {
    pub tables: Seq<Map<char, char>>,
    pub text: Set<char>,
}

/// What is known of each game directory. Searching a directory is not free, and
/// every script of a release is parsed separately, so the result is kept per
/// directory. A directory goes by a number.
#[derive(Debug)]
pub struct ScanCache {
    dirs: HashMap<u64, DirScan>,
}

impl View for ScanCache {
    type V = Map<u64, DirState>;

    closed spec fn view(&self) -> Map<u64, DirState> {
        self.dirs@.map_values(
            |scan: DirScan| DirState { tables: mappings(scan.tables@), text: scan.text@ },
        )
    }
}

/// The directory after a script with the characters `text`: the tables are those
/// found when it was first searched, and the characters accumulate.
pub open spec fn extended(
    cache: Map<u64, DirState>,
    dir: u64,
    found: Seq<Map<char, char>>,
    text: Set<char>,
) -> DirState {
    if cache.contains_key(dir) {
        DirState { tables: cache[dir].tables, text: cache[dir].text.union(text) }
    } else {
        DirState { tables: found, text }
    }
}

impl ScanCache {
    pub fn new() -> (cache: Self)
        ensures
            cache@ == Map::<u64, DirState>::empty(),
    {
        let cache = ScanCache { dirs: HashMap::new() };
        assert(cache@ =~= Map::<u64, DirState>::empty());
        cache
    }

    /// Whether the directory was searched already.
    pub fn is_scanned(&self, dir: u64) -> (known: bool)
        ensures
            known == self@.contains_key(dir),
    {
        self.dirs.contains_key(&dir)
    }

    /// How many of the table's substitutes occur in the scripts of a directory
    /// read so far, and how many it has. `None` for a directory that was not
    /// searched.
    pub fn count_hits(&self, dir: u64, table: &Codepage) -> (counts: Option<(usize, usize)>)
        ensures
            match counts {
                Some((count, len)) => self@.contains_key(dir) && count == hits(
                    table@,
                    self@[dir].text,
                ) && count == table@.dom().intersect(self@[dir].text).len() && len == table@.dom().len(),
                None => !self@.contains_key(dir),
            },
    {
        match self.dirs.get(&dir) {
            Some(known) => Some(count_hits(table, &known.text)),
            None => None,
        }
    }

    /// Takes in the characters of one more script of a directory, and picks the
    /// table of the directory that its text confirms. `found` holds the tables
    /// of a directory that was not searched yet, and is not looked at for any
    /// other.
    pub fn confirm(&mut self, dir: u64, found: Vec<Codepage>, text: &CharSet) -> (chosen: Option<
        Codepage,
    >)
        ensures
            final(self)@ == old(self)@.insert(
                dir,
                extended(old(self)@, dir, mappings(found@), text@),
            ),
            is_selection(
                final(self)@[dir].tables,
                final(self)@[dir].text,
                mapping_of(chosen),
            ),
    {
        let ghost before = self@;
        assert(Set::<char>::empty().union(text@) =~= text@);
        let entry = self.dirs.entry(dir).or_insert(DirScan { tables: found, text: CharSet::new() });
        entry.text.merge(text);
        let chosen = select(entry.tables.as_slice(), &entry.text);
        assert(self@ =~= before.insert(dir, extended(before, dir, mappings(found@), text@)));
        chosen
    }
}

/// Picks the remap table of a game directory for one of its scripts.
///
/// `script` is the raw script being parsed. Its characters decide between
/// competing candidates, and they accumulate across scripts so that a table
/// shared by several scripts still validates. `found` holds the tables of a
/// directory that was not searched yet, and is not looked at for any other.
pub fn load_from_game_dir(
    cache: &mut ScanCache,
    dir: u64,
    found: Vec<Codepage>,
    script: &[u8],
) -> (chosen: Option<Codepage>)
    ensures
        final(cache)@ == old(cache)@.insert(
            dir,
            extended(old(cache)@, dir, mappings(found@), script_text(script@)),
        ),
        is_selection(final(cache)@[dir].tables, final(cache)@[dir].text, mapping_of(chosen)),
{
    cache.confirm(dir, found, &script_chars(script))
}

/// The tables after a whole search, given those it began with.
pub open spec fn tables_after(
    tables: Seq<Map<char, char>>,
    events: Seq<DirEvent>,
) -> Seq<Map<char, char>>
    decreases events.len(),
{
    if events.len() == 0 {
        tables
    } else {
        tables_after(tables, events.drop_last()) + new_tables(events.last())
    }
}

/// A search only adds tables, in the order in which their files are read: what
/// a directory's config states stays first.
pub proof fn law_search_only_adds_tables(tables: Seq<Map<char, char>>, events: Seq<DirEvent>)
    ensures
        tables.len() <= tables_after(tables, events).len(),
        tables_after(tables, events).take(tables.len() as int) == tables,
    decreases events.len(),
{
    if events.len() > 0 {
        law_search_only_adds_tables(tables, events.drop_last());
        let before = tables_after(tables, events.drop_last());
        let after = tables_after(tables, events);
        assert(after.take(tables.len() as int) =~= before.take(tables.len() as int));
    } else {
        assert(tables.take(tables.len() as int) =~= tables);
    }
}

/// An entry of a directory, as far as it can be read.
pub struct DirEntry<'a> {
    /// The extension of its name, where that is text.
    pub extension: Option<&'a str>,
    /// Whether it is a file, and its length.
    pub metadata: Option<(bool, u64)>,
    pub contents: Option<&'a [u8]>,
}

/// The tables of one entry: all those in its contents, where it is an engine
/// binary that is not too large and that can be read, and none otherwise.
pub open spec fn entry_tables(entry: DirEntry) -> Seq<Map<char, char>> {
    match (entry.extension, entry.metadata, entry.contents) {
        (Some(extension), Some((is_file, len)), Some(bytes)) if is_engine_extension(extension@)
            && is_file && len <= MAX_BINARY_SIZE => all_candidates(bytes@),
        _ => Seq::empty(),
    }
}

/// The tables of the entries of a directory, in the order of the listing.
pub open spec fn listing_tables(entries: Seq<DirEntry>) -> Seq<Map<char, char>>
    decreases entries.len(),
{
    if entries.len() == 0 {
        Seq::empty()
    } else {
        listing_tables(entries.drop_last()) + entry_tables(entries.last())
    }
}

/// What reading the metadata of an entry tells.
pub open spec fn metadata_event<'a>(entry: DirEntry<'a>) -> DirEvent<'a> {
    match entry.metadata {
        Some((is_file, len)) => DirEvent::Metadata { is_file, len },
        None => DirEvent::Unreadable,
    }
}

/// What reading the contents of an entry tells.
pub open spec fn contents_event<'a>(entry: DirEntry<'a>) -> DirEvent<'a> {
    match entry.contents {
        Some(bytes) => DirEvent::Contents(bytes),
        None => DirEvent::Unreadable,
    }
}

/// How many more reads of the same entry an event can lead to.
pub open spec fn reads_left(event: DirEvent) -> nat {
    match event {
        DirEvent::Listed(_) => 2,
        DirEvent::Metadata { .. } => 1,
        _ => 0,
    }
}

/// The events of an entry from `event` on, where each is followed by what it
/// calls for.
pub open spec fn events_from<'a>(entry: DirEntry<'a>, event: DirEvent<'a>) -> Seq<DirEvent<'a>>
    decreases reads_left(event),
{
    match next_action(event) {
        DirAction::ReadMetadata => seq![event] + events_from(entry, metadata_event(entry)),
        DirAction::ReadContents => seq![event] + events_from(entry, contents_event(entry)),
        DirAction::NextEntry => seq![event],
    }
}

/// The events of a search that does, entry after entry, what is called for.
pub open spec fn listing_events<'a>(entries: Seq<DirEntry<'a>>) -> Seq<DirEvent<'a>>
    decreases entries.len(),
{
    if entries.len() == 0 {
        Seq::empty()
    } else {
        let entry = entries.last();
        listing_events(entries.drop_last()) + events_from(entry, DirEvent::Listed(entry.extension))
    }
}

proof fn lemma_search_in_two_parts(
    tables: Seq<Map<char, char>>,
    first: Seq<DirEvent>,
    second: Seq<DirEvent>,
)
    ensures
        tables_after(tables, first + second) == tables_after(tables_after(tables, first), second),
    decreases second.len(),
{
    if second.len() == 0 {
        assert(first + second =~= first);
    } else {
        lemma_search_in_two_parts(tables, first, second.drop_last());
        assert((first + second).drop_last() =~= first + second.drop_last());
    }
}

proof fn lemma_one_event(tables: Seq<Map<char, char>>, event: DirEvent)
    ensures
        tables_after(tables, seq![event]) == tables + new_tables(event),
{
    assert(seq![event].drop_last() =~= Seq::empty());
    assert(tables_after(tables, Seq::<DirEvent>::empty()) == tables);
}

/// The tables of an entry are added, and nothing else, when the search does what
/// it says is needed next: reads the metadata of an engine binary, then the
/// contents of a file that is not too large.
pub proof fn law_search_adds_tables_of_entry(tables: Seq<Map<char, char>>, entry: DirEntry)
    ensures
        tables_after(tables, events_from(entry, DirEvent::Listed(entry.extension))) == tables
            + entry_tables(entry),
{
    let listed = DirEvent::Listed(entry.extension);
    let metadata = metadata_event(entry);
    let contents = contents_event(entry);
    assert(tables + Seq::<Map<char, char>>::empty() =~= tables);
    lemma_one_event(tables, listed);
    lemma_one_event(tables, metadata);
    lemma_one_event(tables, contents);
    lemma_search_in_two_parts(tables, seq![listed], events_from(entry, metadata));
    lemma_search_in_two_parts(tables, seq![metadata], events_from(entry, contents));
    assert(events_from(entry, contents) == seq![contents]);
}

/// A search that does what is needed adds exactly the tables of the entries, in
/// the order of the listing.
pub proof fn law_search_adds_tables_in_listing_order(
    tables: Seq<Map<char, char>>,
    entries: Seq<DirEntry>,
)
    ensures
        tables_after(tables, listing_events(entries)) == tables + listing_tables(entries),
    decreases entries.len(),
{
    if entries.len() == 0 {
        assert(tables + Seq::<Map<char, char>>::empty() =~= tables);
    } else {
        let earlier = entries.drop_last();
        let entry = entries.last();
        let events = events_from(entry, DirEvent::Listed(entry.extension));
        law_search_adds_tables_in_listing_order(tables, earlier);
        lemma_search_in_two_parts(tables, listing_events(earlier), events);
        law_search_adds_tables_of_entry(tables + listing_tables(earlier), entry);
        assert(tables + listing_tables(earlier) + entry_tables(entry) =~= tables + listing_tables(
            entries,
        ));
    }
}

/// Where a directory has no tables none is chosen, whatever its scripts hold, so
/// a release without a patch is left as it is.
pub proof fn law_no_tables_select_nothing(text: Set<char>, chosen: Option<Map<char, char>>)
    requires
        is_selection(Seq::empty(), text, chosen),
    ensures
        chosen is None,
{
}

/// What is found in a directory is found once: the tables of a directory that
/// is in the cache stay, whatever is offered later.
pub proof fn law_searched_tables_stay(
    cache: Map<u64, DirState>,
    dir: u64,
    found: Seq<Map<char, char>>,
    text: Set<char>,
)
    requires
        cache.contains_key(dir),
    ensures
        extended(cache, dir, found, text).tables == cache[dir].tables,
{
}

/// The characters of a directory's scripts accumulate, in whatever order the
/// scripts come.
pub proof fn law_text_accumulates(
    cache: Map<u64, DirState>,
    dir: u64,
    found: Seq<Map<char, char>>,
    first: Set<char>,
    second: Set<char>,
)
    ensures
        ({
            let one_way = cache.insert(dir, extended(cache, dir, found, first));
            let other_way = cache.insert(dir, extended(cache, dir, found, second));
            let state = extended(one_way, dir, found, second);
            &&& first.subset_of(state.text)
            &&& second.subset_of(state.text)
            &&& cache.contains_key(dir) ==> cache[dir].text.subset_of(state.text)
            &&& state == extended(other_way, dir, found, first)
        }),
{
    let one_way = cache.insert(dir, extended(cache, dir, found, first));
    let other_way = cache.insert(dir, extended(cache, dir, found, second));
    assert(extended(one_way, dir, found, second).text =~= extended(
        other_way,
        dir,
        found,
        first,
    ).text);
}

/// A release that had a table keeps having one as more of its scripts are read.
pub proof fn law_more_scripts_keep_a_table(
    tables: Seq<Map<char, char>>,
    text: Set<char>,
    more: Set<char>,
    before: Option<Map<char, char>>,
    after: Option<Map<char, char>>,
)
    requires
        text.subset_of(more),
        is_selection(tables, text, before),
        is_selection(tables, more, after),
        before is Some,
        before->0.dom().finite(),
    ensures
        after is Some,
{
    let k = choose|k: int| #[trigger] is_choice(tables, text, k) && before->0 == tables[k];
    law_more_text_keeps_tables_confirmed(tables[k], text, more);
    assert(confirmed(tables[k], more));
}

/// All that is found in a directory is kept: for one that is not in the cache the
/// tables are those found, every one of them in its order, and the characters are
/// those of the script.
pub proof fn law_new_directory_keeps_all_tables(
    cache: Map<u64, DirState>,
    dir: u64,
    found: Seq<Map<char, char>>,
    text: Set<char>,
)
    requires
        !cache.contains_key(dir),
    ensures
        extended(cache, dir, found, text).tables == found,
        extended(cache, dir, found, text).text == text,
{
}

/// The characters of a directory that is in the cache are those of before and
/// those of the script, and no others.
pub proof fn law_known_directory_adds_the_script(
    cache: Map<u64, DirState>,
    dir: u64,
    found: Seq<Map<char, char>>,
    text: Set<char>,
    c: char,
)
    requires
        cache.contains_key(dir),
    ensures
        extended(cache, dir, found, text).text.contains(c) <==> cache[dir].text.contains(c)
            || text.contains(c),
{
}

/// A table whose substitutes all occur in the first script of a directory is not
/// lost, wherever it stands among those found: a table is chosen, one of those
/// found, and it has at least as many substitutes in the script.
pub proof fn law_matching_table_of_new_directory_is_chosen(
    cache: Map<u64, DirState>,
    dir: u64,
    found: Seq<Map<char, char>>,
    text: Set<char>,
    k: int,
    chosen: Option<Map<char, char>>,
)
    requires
        !cache.contains_key(dir),
        0 <= k < found.len(),
        found[k].dom().subset_of(text),
        is_selection(
            extended(cache, dir, found, text).tables,
            extended(cache, dir, found, text).text,
            chosen,
        ),
    ensures
        chosen is Some,
        found.contains(chosen->0),
        chosen->0.dom().intersect(text).len() >= found[k].dom().len(),
        chosen->0.dom().intersect(text).len() * 100 >= chosen->0.dom().len() * 90,
{
    law_new_directory_keeps_all_tables(cache, dir, found, text);
    law_full_match_is_confirmed(found[k], text);
    law_confirmed_table_is_not_passed_over(found, text, k, chosen);
    law_selected_table_matches_the_text(found, text, chosen->0);
    assert(found[k].dom().intersect(text) =~= found[k].dom());
}

/// The engine binaries are those with the extension `dll` or `exe`, in capitals
/// or not.
pub proof fn law_engine_extensions(extension: Seq<char>)
    ensures
        is_engine_extension(extension) <==> extension.len() == 3 && {
            let (a, b, c) = (extension[0], extension[1], extension[2]);
            ||| (a == 'd' || a == 'D') && (b == 'l' || b == 'L') && (c == 'l' || c == 'L')
            ||| (a == 'e' || a == 'E') && (b == 'x' || b == 'X') && (c == 'e' || c == 'E')
        },
{
    reveal_strlit("dll");
    reveal_strlit("exe");
    let lower = |c: char| ascii_lower(c);
    let small = extension.map_values(lower);
    let (dll, exe) = ("dll"@.map_values(lower), "exe"@.map_values(lower));
    assert(dll =~= seq!['d', 'l', 'l']);
    assert(exe =~= seq!['e', 'x', 'e']);
    assert forall|c: char| #[trigger] ascii_lower(c) == 'd' <==> c == 'd' || c == 'D' by {
        lemma_char_code(c);
    }
    assert forall|c: char| #[trigger] ascii_lower(c) == 'l' <==> c == 'l' || c == 'L' by {
        lemma_char_code(c);
    }
    assert forall|c: char| #[trigger] ascii_lower(c) == 'e' <==> c == 'e' || c == 'E' by {
        lemma_char_code(c);
    }
    assert forall|c: char| #[trigger] ascii_lower(c) == 'x' <==> c == 'x' || c == 'X' by {
        lemma_char_code(c);
    }
    if extension.len() == 3 {
        let (a, b, c) = (extension[0], extension[1], extension[2]);
        assert(small =~= seq![ascii_lower(a), ascii_lower(b), ascii_lower(c)]);
        assert(small == dll <==> small[0] == 'd' && small[1] == 'l' && small[2] == 'l') by {
            if small[0] == 'd' && small[1] == 'l' && small[2] == 'l' {
                assert(small =~= dll);
            }
        }
        assert(small == exe <==> small[0] == 'e' && small[1] == 'x' && small[2] == 'e') by {
            if small[0] == 'e' && small[1] == 'x' && small[2] == 'e' {
                assert(small =~= exe);
            }
        }
    }
}

/// The search asks for the metadata of every entry with the extension of an
/// engine binary, then for the contents of every file of at most 64 MiB, and for
/// nothing else.
pub proof fn law_search_reads_engine_binaries(event: DirEvent)
    ensures
        next_action(event) == DirAction::ReadMetadata <==> (event matches DirEvent::Listed(
            Some(extension),
        ) && is_engine_extension(extension@)),
        next_action(event) == DirAction::ReadContents <==> (event matches DirEvent::Metadata {
            is_file,
            len,
        } && is_file && len <= 67_108_864),
{
}

/// Contents that are read bring every table in them, and nothing else brings
/// any.
pub proof fn law_contents_bring_all_their_tables(event: DirEvent)
    ensures
        event matches DirEvent::Contents(bytes) ==> new_tables(event) == all_candidates(bytes@),
        event !is Contents ==> new_tables(event) == Seq::<Map<char, char>>::empty(),
{
}

/// An entry that can be read adds every table in it to those of the directory
/// where it is an engine binary, a file and of at most 64 MiB, and none
/// otherwise.
pub proof fn law_readable_engine_binary_adds_its_tables(
    tables: Seq<Map<char, char>>,
    extension: &str,
    is_file: bool,
    len: u64,
    bytes: &[u8],
)
    ensures
        ({
            let entry = DirEntry {
                extension: Some(extension),
                metadata: Some((is_file, len)),
                contents: Some(bytes),
            };
            let after = tables_after(
                tables,
                events_from(entry, DirEvent::Listed(Some(extension))),
            );
            if is_engine_extension(extension@) && is_file && len <= 67_108_864 {
                after == tables + all_candidates(bytes@)
            } else {
                after == tables
            }
        }),
{
    let entry = DirEntry {
        extension: Some(extension),
        metadata: Some((is_file, len)),
        contents: Some(bytes),
    };
    law_search_adds_tables_of_entry(tables, entry);
    assert(tables + Seq::<Map<char, char>>::empty() =~= tables);
}

/// A directory starts out with the table that its config states, where the config
/// can be read and states one, and with none otherwise.
pub proof fn law_config_gives_the_first_table(config: Option<Seq<u8>>)
    ensures
        config_tables(config).len() <= 1,
        config is None ==> config_tables(config).len() == 0,
        config matches Some(bytes) ==> {
            &&& json_document(bytes) is None ==> config_tables(config).len() == 0
            &&& json_document(bytes) matches Some(tree) ==> match stated_mapping(tree) {
                Some(table) => config_tables(config) == seq![table],
                None => config_tables(config).len() == 0,
            }
        },
{
}

} // verus!

//! The seed's pages on alttpr.com, its metadata, and the lines about it that head the CSV log.
use crate::serde_lttp::{decimal, radix_text};
use vstd::prelude::*;
use vstd::relations::{sorted_by, total_ordering};

verus! {

/// The page of a seed.
pub open spec fn spec_permalink(seed: Seq<char>) -> Seq<char> {
    "https://alttpr.com/en/h/"@ + seed
}

/// Where the patch data of a seed, with its metadata, is kept.
pub open spec fn spec_meta_json_uri(seed: Seq<char>) -> Seq<char> {
    "https://alttpr-patch-data.s3.us-east-2.amazonaws.com/"@ + seed + ".json"@
}

pub fn permalink_for(seed: &str) -> (s: String)
    ensures
        s@ == spec_permalink(seed@),
{
    let mut s = String::from_str("https://alttpr.com/en/h/");
    s.append(seed);
    s
}

pub fn meta_json_uri_for(seed: &str) -> (s: String)
    ensures
        s@ == spec_meta_json_uri(seed@),
{
    let mut s = String::from_str("https://alttpr-patch-data.s3.us-east-2.amazonaws.com/");
    s.append(seed);
    s.append(".json");
    s
}

/// The patch data of a seed, as far as it is read.
pub struct SeedJson {
    pub spoiler: Spoiler,
}

pub struct Spoiler {
    pub meta: MetaData,
}

/// The settings a seed was generated with.
pub struct MetaData {
    pub goal: String,
    pub mode: String,
    pub build: String,
    pub logic: String,
    pub worlds: usize,
    pub weapons: String,
    pub rom_mode: String,
    pub spoilers: String,
    pub world_id: usize,
    pub item_pool: String,
    pub tournament: bool,
    pub accessibility: String,
    pub dungeon_items: String,
    pub item_placement: String,
    pub allow_quickswap: bool,
    pub item_functionality: String,
    pub enemizer_pot_shuffle: String,
    pub enemizer_boss_shuffle: String,
    pub enemizer_enemy_damage: String,
    pub enemizer_enemy_health: String,
    pub enemizer_enemy_shuffle: String,
    pub entry_crystals_ganon: String,
    pub entry_crystals_tower: String,
    pub name: Option<String>,
    pub notes: Option<String>,
}

/// The name of what gzip decoding of the bytes, read to the end as UTF-8 text, gives: the text,
/// or nothing when the bytes are not gzip data of UTF-8 text.
pub uninterp spec fn gunzip_text(data: Seq<u8>) -> Option<Seq<char>>;

/// `flate2::bufread::GzDecoder` over the bytes, read to the end with `read_to_string`: the
/// decompressed text, or `None` when decoding or UTF-8 fails. Its result is named
/// `gunzip_text`; the decoder reads only the bytes it is given.
#[verifier::external_body]
fn gunzip_to_string(data: &[u8]) -> (r: Option<String>)
    ensures
        match r {
            Some(t) => gunzip_text(data@) == Some(t@),
            None => gunzip_text(data@) is None,
        },
{
    let mut text = String::new();
    match std::io::Read::read_to_string(&mut flate2::bufread::GzDecoder::new(data), &mut text) {
        Ok(_) => Some(text),
        Err(_) => None,
    }
}

/// Why the metadata of a seed could not be read.
#[derive(Debug, PartialEq, Eq)]
pub enum MetadataError {
    /// The patch data is not gzip data of UTF-8 text.
    NotGzipText,
}

/// The permalink of the seed, and the JSON text of its patch data from the gzip-compressed
/// body of the answer to the request for `meta_json_uri_for(seed)`.
pub fn fetch_metadata_for(seed: &str, body: &Vec<u8>) -> (r: Result<(String, String), MetadataError>)
    ensures
        match gunzip_text(body@) {
            Some(t) => r matches Ok(p) && p.0@ == spec_permalink(seed@) && p.1@ == t,
            None => r == Err::<(String, String), MetadataError>(MetadataError::NotGzipText),
        },
{
    match gunzip_to_string(body.as_slice()) {
        Some(text) => Ok((permalink_for(seed), text)),
        None => Err(MetadataError::NotGzipText),
    }
}

// ---------------------------------------------------------------------------------------------
// The lines that head the CSV log
// ---------------------------------------------------------------------------------------------

/// One line: `# <key> <value>`.
pub open spec fn header_line(key: Seq<char>, value: Seq<char>) -> Seq<char> {
    "# "@ + key + " "@ + value + "\n"@
}

/// The text with each line feed replaced by a space.
pub open spec fn spaced(s: Seq<char>) -> Seq<char> {
    Seq::new(s.len(), |i: int| if s[i] == '\n' { ' ' } else { s[i] })
}

/// An optional text on one line; `None` when there is none.
pub open spec fn optional_text(s: Option<String>) -> Seq<char> {
    match s {
        Some(t) => spaced(t@),
        None => "None"@,
    }
}

pub open spec fn bool_text(b: bool) -> Seq<char> {
    if b {
        "true"@
    } else {
        "false"@
    }
}

/// The build, name, goal and modes.
pub open spec fn meta_lines_rom(m: MetaData) -> Seq<char> {
    header_line("rom_build"@, m.build@) + header_line("name"@, optional_text(m.name)) + header_line("goal"@, m.goal@) + header_line("mode"@, m.mode@) + header_line("rom_mode"@, m.rom_mode@)
}

/// Logic, accessibility, weapons, spoilers and whether it is a tournament seed.
pub open spec fn meta_lines_logic(m: MetaData) -> Seq<char> {
    header_line("logic"@, m.logic@) + header_line("accessibility"@, m.accessibility@) + header_line("weapons"@, m.weapons@) + header_line("spoilers"@, m.spoilers@) + header_line("tournament"@, bool_text(m.tournament))
}

/// The item settings and the boss shuffle.
pub open spec fn meta_lines_items(m: MetaData) -> Seq<char> {
    header_line("dungeon_items"@, m.dungeon_items@) + header_line("item_pool"@, m.item_pool@) + header_line("item_placement"@, m.item_placement@) + header_line("item_functionality"@, m.item_functionality@) + header_line("enemizer_boss_shuffle"@, m.enemizer_boss_shuffle@)
}

/// The enemy settings and the crystals for Ganon.
pub open spec fn meta_lines_enemizer(m: MetaData) -> Seq<char> {
    header_line("enemizer_enemy_damage"@, m.enemizer_enemy_damage@) + header_line("enemizer_enemy_health"@, m.enemizer_enemy_health@) + header_line("enemizer_enemy_shuffle"@, m.enemizer_enemy_shuffle@) + header_line("enemizer_pot_shuffle"@, m.enemizer_pot_shuffle@) + header_line("entry_crystals_ganon"@, m.entry_crystals_ganon@)
}

/// The crystals for the tower, quickswap (written as the tournament setting), the worlds and the notes.
pub open spec fn meta_lines_world(m: MetaData) -> Seq<char> {
    header_line("entry_crystals_tower"@, m.entry_crystals_tower@) + header_line("allow_quickswap"@, bool_text(m.tournament)) + header_line("worlds"@, radix_text(m.worlds as nat, 10)) + header_line("world_id"@, radix_text(m.world_id as nat, 10)) + header_line("notes"@, optional_text(m.notes))
}

/// The lines about the seed's settings.
pub open spec fn meta_lines(m: MetaData) -> Seq<char> {
    meta_lines_rom(m) + meta_lines_logic(m) + meta_lines_items(m) + meta_lines_enemizer(m) + meta_lines_world(m)
}

pub open spec fn time_sum(s: Seq<u128>) -> int
    decreases s.len(),
{
    if s.len() == 0 {
        0
    } else {
        time_sum(s.drop_last()) + s.last()
    }
}

pub open spec fn time_leq() -> spec_fn(u128, u128) -> bool {
    |a: u128, b: u128| a <= b
}

/// The mean read time as the log gives it: the sum, cast to `usize`, divided by the number
/// of reads.
pub open spec fn read_time_avg(times: Seq<u128>) -> int {
    (((time_sum(times) as u128) as usize) as int) / (times.len() as int)
}

/// The read time in the middle of the sorted read times (the upper one of the two middle
/// ones for an even number).
pub open spec fn read_time_median(times: Seq<u128>) -> u128 {
    times.sort_by(time_leq())[(times.len() / 2) as int]
}

/// The lines that head the log: the logger's version, the seed's permalink, the mean and the
/// middle read time in milliseconds, and, when there is metadata, the seed's settings.
pub open spec fn header_text(
    version: Seq<char>,
    permalink: Seq<char>,
    meta_data: Option<MetaData>,
    read_times: Seq<u128>,
) -> Seq<char> {
    header_line("logger_version"@, version) + header_line("permalink"@, permalink) + header_line(
        "read_time_ms_avg"@,
        radix_text(read_time_avg(read_times) as nat, 10),
    ) + header_line("read_time_ms_mean"@, radix_text(read_time_median(read_times) as nat, 10))
        + match meta_data {
        Some(m) => meta_lines(m),
        None => Seq::empty(),
    }
}

fn append_line(out: &mut String, key: &str, value: &str)
    ensures
        final(out)@ == old(out)@ + header_line(key@, value@),
{
    out.append("# ");
    out.append(key);
    out.append(" ");
    out.append(value);
    out.append("\n");
    assert(out@ =~= old(out)@ + header_line(key@, value@));
}

fn bool_str(b: bool) -> (s: &'static str)
    ensures
        s@ == bool_text(b),
{
    if b {
        "true"
    } else {
        "false"
    }
}

/// The text with each line feed replaced by a space.
fn spaced_string(s: &str) -> (r: String)
    ensures
        r@ == spaced(s@),
{
    let mut r = String::new();
    let n = s.unicode_len();
    let mut i: usize = 0;
    while i < n
        invariant
            n == s@.len(),
            i <= n,
            r@ == spaced(s@).take(i as int),
        decreases n - i,
    {
        let c = s.get_char(i);
        if c == '\n' {
            r.append(" ");
            proof {
                reveal_strlit(" ");
            }
        } else {
            r.append(s.substring_char(i, i + 1));
        }
        assert(r@ =~= spaced(s@).take(i + 1));
        i = i + 1;
    }
    assert(spaced(s@).take(n as int) =~= spaced(s@));
    r
}

fn optional_string(s: &Option<String>) -> (r: String)
    ensures
        r@ == optional_text(*s),
{
    match s {
        Some(t) => spaced_string(t.as_str()),
        None => String::from_str("None"),
    }
}

fn append_meta_lines_rom(out: &mut String, m: &MetaData)
    ensures
        final(out)@ == old(out)@ + meta_lines_rom(*m),
{
    let name = optional_string(&m.name);
    append_line(out, "rom_build", m.build.as_str());
    append_line(out, "name", name.as_str());
    append_line(out, "goal", m.goal.as_str());
    append_line(out, "mode", m.mode.as_str());
    append_line(out, "rom_mode", m.rom_mode.as_str());
    assert(out@ =~= old(out)@ + meta_lines_rom(*m));
}

fn append_meta_lines_logic(out: &mut String, m: &MetaData)
    ensures
        final(out)@ == old(out)@ + meta_lines_logic(*m),
{
    append_line(out, "logic", m.logic.as_str());
    append_line(out, "accessibility", m.accessibility.as_str());
    append_line(out, "weapons", m.weapons.as_str());
    append_line(out, "spoilers", m.spoilers.as_str());
    append_line(out, "tournament", bool_str(m.tournament));
    assert(out@ =~= old(out)@ + meta_lines_logic(*m));
}

fn append_meta_lines_items(out: &mut String, m: &MetaData)
    ensures
        final(out)@ == old(out)@ + meta_lines_items(*m),
{
    append_line(out, "dungeon_items", m.dungeon_items.as_str());
    append_line(out, "item_pool", m.item_pool.as_str());
    append_line(out, "item_placement", m.item_placement.as_str());
    append_line(out, "item_functionality", m.item_functionality.as_str());
    append_line(out, "enemizer_boss_shuffle", m.enemizer_boss_shuffle.as_str());
    assert(out@ =~= old(out)@ + meta_lines_items(*m));
}

fn append_meta_lines_enemizer(out: &mut String, m: &MetaData)
    ensures
        final(out)@ == old(out)@ + meta_lines_enemizer(*m),
{
    append_line(out, "enemizer_enemy_damage", m.enemizer_enemy_damage.as_str());
    append_line(out, "enemizer_enemy_health", m.enemizer_enemy_health.as_str());
    append_line(out, "enemizer_enemy_shuffle", m.enemizer_enemy_shuffle.as_str());
    append_line(out, "enemizer_pot_shuffle", m.enemizer_pot_shuffle.as_str());
    append_line(out, "entry_crystals_ganon", m.entry_crystals_ganon.as_str());
    assert(out@ =~= old(out)@ + meta_lines_enemizer(*m));
}

fn append_meta_lines_world(out: &mut String, m: &MetaData)
    ensures
        final(out)@ == old(out)@ + meta_lines_world(*m),
{
    let worlds = decimal(m.worlds as u128);
    let world_id = decimal(m.world_id as u128);
    let notes = optional_string(&m.notes);
    append_line(out, "entry_crystals_tower", m.entry_crystals_tower.as_str());
    append_line(out, "allow_quickswap", bool_str(m.tournament));
    append_line(out, "worlds", worlds.as_str());
    append_line(out, "world_id", world_id.as_str());
    append_line(out, "notes", notes.as_str());
    assert(out@ =~= old(out)@ + meta_lines_world(*m));
}

/// Appends the lines about the seed's settings.
fn append_meta_lines(out: &mut String, m: &MetaData)
    ensures
        final(out)@ == old(out)@ + meta_lines(*m),
{
    append_meta_lines_rom(out, m);
    append_meta_lines_logic(out, m);
    append_meta_lines_items(out, m);
    append_meta_lines_enemizer(out, m);
    append_meta_lines_world(out, m);
    assert(out@ =~= old(out)@ + meta_lines(*m));
}

/// `slice::sort` on the read times: afterwards they are in ascending order and are the same
/// times, as a multiset, as before.
#[verifier::external_body]
fn sort_times(times: &mut Vec<u128>)
    ensures
        final(times)@.len() == old(times)@.len(),
        final(times)@.to_multiset() == old(times)@.to_multiset(),
        sorted_by(final(times)@, time_leq()),
{
    times.sort();
}

proof fn lemma_time_leq_total()
    ensures
        total_ordering(time_leq()),
{
    let leq = time_leq();
    assert(vstd::relations::reflexive(leq));
    assert(vstd::relations::antisymmetric(leq));
    assert(vstd::relations::transitive(leq));
    assert(vstd::relations::strongly_connected(leq));
}

/// The lines that head the log, as `header_text` gives them. There must be read times, and
/// their sum must fit in `u128`.
pub fn metadata_header(
    version: &str,
    permalink: &str,
    meta_data: &Option<MetaData>,
    read_times: &Vec<u128>,
) -> (r: String)
    requires
        read_times@.len() > 0,
        time_sum(read_times@) <= u128::MAX,
    ensures
        r@ == header_text(version@, permalink@, *meta_data, read_times@),
{
    let ghost times = read_times@;
    let mut total: u128 = 0;
    let mut i: usize = 0;
    while i < read_times.len()
        invariant
            i <= times.len(),
            times == read_times@,
            time_sum(times) <= u128::MAX,
            total == time_sum(times.take(i as int)),
        decreases times.len() - i,
    {
        proof {
            assert(times.take(i + 1).drop_last() =~= times.take(i as int));
            lemma_time_sum_prefix(times, i + 1);
        }
        total = total + read_times[i];
        i = i + 1;
    }
    assert(times.take(times.len() as int) =~= times);
    let avg = (total as usize) / read_times.len();
    let mut sorted = read_times.clone();
    assert(sorted@ =~= times);
    sort_times(&mut sorted);
    proof {
        lemma_time_leq_total();
        times.lemma_sort_by_ensures(time_leq());
        vstd::seq_lib::lemma_sorted_unique(sorted@, times.sort_by(time_leq()), time_leq());
    }
    let median = sorted[sorted.len() / 2];
    let mut out = String::new();
    append_line(&mut out, "logger_version", version);
    append_line(&mut out, "permalink", permalink);
    let avg_text = decimal(avg as u128);
    append_line(&mut out, "read_time_ms_avg", avg_text.as_str());
    let median_text = decimal(median);
    append_line(&mut out, "read_time_ms_mean", median_text.as_str());
    match meta_data {
        Some(m) => append_meta_lines(&mut out, m),
        None => {},
    }
    assert(out@ =~= header_text(version@, permalink@, *meta_data, read_times@));
    out
}

/// A sum of a prefix is at most the sum of the whole.
proof fn lemma_time_sum_prefix(s: Seq<u128>, k: int)
    requires
        0 <= k <= s.len(),
    ensures
        time_sum(s.take(k)) <= time_sum(s),
        time_sum(s.take(k)) >= 0,
    decreases s.len(),
{
    if k == s.len() {
        assert(s.take(k) =~= s);
        lemma_time_sum_nonneg(s);
    } else {
        assert(s.drop_last().take(k) =~= s.take(k));
        lemma_time_sum_prefix(s.drop_last(), k);
    }
}

proof fn lemma_time_sum_nonneg(s: Seq<u128>)
    ensures
        time_sum(s) >= 0,
    decreases s.len(),
{
    if s.len() > 0 {
        lemma_time_sum_nonneg(s.drop_last());
    }
}

} // verus!

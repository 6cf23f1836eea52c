//! The game's `FGL_peers` folder: which file names the local player, and which
//! temporary files are cleaned up.
use vstd::prelude::*;

use crate::text::{
    chars_of, concat, copy_range, has_prefix, seq_eq, lowercase_chars, starts_with, str_lowercase,
    string_of, trim, trim_spec,
};

verus! {

/// A file of the peers folder: its name (when valid UTF-8) and when it was
/// last modified, in nanoseconds after the Unix epoch (`None` when unknown or
/// not after the epoch).
pub struct PeerFile {
    pub name: Option<String>,
    pub modified_nanos: Option<u128>,
}

/// Index of the last `c` in `s`, or -1.
pub open spec fn last_index_of(s: Seq<char>, c: char) -> int
    decreases s.len(),
{
    if s.len() == 0 {
        -1
    } else if s.last() == c {
        s.len() - 1
    } else {
        last_index_of(s.drop_last(), c)
    }
}

/// `Path::file_stem` of a file name: the part before the last `.`; the whole
/// name when it has no `.`, when its only `.` leads it, or when it is `..`.
pub open spec fn file_stem_spec(name: Seq<char>) -> Seq<char> {
    let i = last_index_of(name, '.');
    if name == seq!['.', '.'] || i <= 0 {
        name
    } else {
        name.take(i)
    }
}

/// `Path::extension` of a file name: the part after the last `.`, when
/// `file_stem_spec` is not the whole name.
pub open spec fn extension_spec(name: Seq<char>) -> Option<Seq<char>> {
    let i = last_index_of(name, '.');
    if name == seq!['.', '.'] || i <= 0 {
        None
    } else {
        Some(name.skip(i + 1))
    }
}

proof fn lemma_last_index_of(s: Seq<char>, c: char, k: int)
    requires
        -1 <= k < s.len(),
        forall|j: int| k < j < s.len() ==> s[j] != c,
        k >= 0 ==> s[k] == c,
    ensures
        last_index_of(s, c) == k,
    decreases s.len(),
{
    if s.len() > 0 && k < s.len() - 1 {
        lemma_last_index_of(s.drop_last(), c, k);
    }
}

/// Splits a file name into stem and extension as `std::path` does.
pub fn stem_and_extension(name: &Vec<char>) -> (r: (Vec<char>, Option<Vec<char>>))
    ensures
        r.0@ == file_stem_spec(name@),
        match r.1 {
            Some(e) => extension_spec(name@) == Some(e@),
            None => extension_spec(name@) is None,
        },
{
    let n = name.len();
    let mut k: usize = n;
    while k > 0 && name[k - 1] != '.'
        invariant
            k <= n == name@.len(),
            forall|j: int| k <= j < n ==> name@[j] != '.',
        decreases k,
    {
        k -= 1;
    }
    proof {
        lemma_last_index_of(name@, '.', k - 1);
    }
    let dotdot = n == 2 && name[0] == '.' && name[1] == '.';
    proof {
        if name@ == seq!['.', '.'] {
            assert(name@[0] == '.' && name@[1] == '.');
        }
        if dotdot {
            assert(name@ =~= seq!['.', '.']);
        }
    }
    if dotdot || k <= 1 {
        (copy_range(name, 0, n), None)
    } else {
        let stem = copy_range(name, 0, k - 1);
        let ext = copy_range(name, k, n);
        proof {
            assert(stem@ =~= name@.take(k - 1));
            assert(ext@ =~= name@.skip(k as int));
        }
        (stem, Some(ext))
    }
}

/// Names the launcher writes itself; they never name the local player.
pub open spec fn reserved_stem(lower: Seq<char>) -> bool {
    ||| has_prefix(lower, "chal"@)
    ||| has_prefix(lower, "trd_"@)
    ||| has_prefix(lower, "bat_"@)
    ||| has_prefix(lower, "party"@)
    ||| has_prefix(lower, "cmd_"@)
    ||| has_prefix(lower, "partyready"@)
}

/// The player id a file stands for: the stem of a `.txt` file, when not empty
/// and not reserved (case ignored).
pub open spec fn player_stem(f: PeerFile) -> Option<Seq<char>> {
    match f.name {
        Some(n) => if extension_spec(n@) == Some("txt"@) && file_stem_spec(n@).len() > 0
            && !reserved_stem(str_lowercase(file_stem_spec(n@))) {
            Some(file_stem_spec(n@))
        } else {
            None
        },
        None => None,
    }
}

/// Going through the files in order: the id of the file modified last so far
/// (strictly later than any before it, and after the epoch), and that time.
pub open spec fn pick_state(files: Seq<PeerFile>) -> (Option<Seq<char>>, u128)
    decreases files.len(),
{
    if files.len() == 0 {
        (None, 0)
    } else {
        let prev = pick_state(files.drop_last());
        let f = files.last();
        match (player_stem(f), f.modified_nanos) {
            (Some(id), Some(m)) => if m > prev.1 {
                (Some(id), m)
            } else {
                prev
            },
            _ => prev,
        }
    }
}

/// The file is `<id>.txt`.
pub open spec fn txt_file_of(f: PeerFile, id: Seq<char>) -> bool {
    match f.name {
        Some(n) => extension_spec(n@) == Some("txt"@) && file_stem_spec(n@) == id,
        None => false,
    }
}

/// Law: the local player's id is the non-empty stem of one of the `.txt` files
/// with a known time, never a name the launcher writes itself (starting, case
/// ignored, with `chal`, `trd_`, `bat_`, `party` or `cmd_`), and no other
/// player file was modified later.
pub proof fn lemma_picked_id_is_a_player(files: Seq<PeerFile>)
    ensures
        pick_state(files).0 matches Some(id) ==> {
            let lower = str_lowercase(id);
            &&& id.len() > 0
            &&& !has_prefix(lower, "chal"@)
            &&& !has_prefix(lower, "trd_"@)
            &&& !has_prefix(lower, "bat_"@)
            &&& !has_prefix(lower, "party"@)
            &&& !has_prefix(lower, "cmd_"@)
            &&& exists|i: int|
                0 <= i < files.len() && txt_file_of(#[trigger] files[i], id)
                    && files[i].modified_nanos == Some(pick_state(files).1)
        },
        forall|i: int|
            0 <= i < files.len() && player_stem(#[trigger] files[i]) is Some
                && files[i].modified_nanos is Some ==> files[i].modified_nanos->0
                <= pick_state(files).1,
    decreases files.len(),
{
    if files.len() > 0 {
        let prev = files.drop_last();
        lemma_picked_id_is_a_player(prev);
        let f = files.last();
        assert forall|i: int|
            0 <= i < files.len() && player_stem(#[trigger] files[i]) is Some
                && files[i].modified_nanos is Some implies files[i].modified_nanos->0
                <= pick_state(files).1 by {
            if i < files.len() - 1 {
                assert(prev[i] == files[i]);
            }
        }
        match pick_state(files).0 {
            Some(id) => {
                if pick_state(files) == pick_state(prev) {
                    let i = choose|i: int|
                        0 <= i < prev.len() && txt_file_of(#[trigger] prev[i], id)
                            && prev[i].modified_nanos == Some(pick_state(prev).1);
                    assert(prev[i] == files[i]);
                } else {
                    let k = files.len() - 1;
                    assert(files[k] == f);
                    assert(player_stem(f) == Some(id));
                }
            },
            None => {},
        }
    }
}

fn player_stem_of(f: &PeerFile) -> (r: Option<Vec<char>>)
    ensures
        match r {
            Some(s) => player_stem(*f) == Some(s@),
            None => player_stem(*f) is None,
        },
{
    match &f.name {
        Some(n) => {
            let c = chars_of(n.as_str());
            let (stem, ext) = stem_and_extension(&c);
            let is_txt = match &ext {
                Some(e) => seq_eq(e, &chars_of("txt")),
                None => false,
            };
            if !is_txt || stem.len() == 0 {
                return None;
            }
            let lower = lowercase_chars(&stem);
            let reserved = starts_with(&lower, &chars_of("chal")) || starts_with(
                &lower,
                &chars_of("trd_"),
            ) || starts_with(&lower, &chars_of("bat_")) || starts_with(&lower, &chars_of("party"))
                || starts_with(&lower, &chars_of("cmd_")) || starts_with(
                &lower,
                &chars_of("partyready"),
            );
            if reserved {
                None
            } else {
                Some(stem)
            }
        },
        None => None,
    }
}

/// `write_game_command`'s choice of the local player: the id of the player file
/// modified last; none when there is no such file.
pub fn pick_player_id(files: &Vec<PeerFile>) -> (r: Option<String>)
    ensures
        match r {
            Some(id) => pick_state(files@).0 == Some(id@),
            None => pick_state(files@).0 is None,
        },
{
    let mut best: Option<Vec<char>> = None;
    let mut best_time: u128 = 0;
    let mut i: usize = 0;
    while i < files.len()
        invariant
            i <= files@.len(),
            pick_state(files@.take(i as int)).1 == best_time,
            match best {
                Some(s) => pick_state(files@.take(i as int)).0 == Some(s@),
                None => pick_state(files@.take(i as int)).0 is None,
            },
        decreases files@.len() - i,
    {
        proof {
            assert(files@.take(i + 1).drop_last() =~= files@.take(i as int));
            assert(files@.take(i + 1).last() == files@[i as int]);
        }
        let f = &files[i];
        match player_stem_of(f) {
            Some(stem) => match f.modified_nanos {
                Some(m) => {
                    if m > best_time {
                        best_time = m;
                        best = Some(stem);
                    }
                },
                None => {},
            },
            None => {},
        }
        i += 1;
    }
    proof {
        assert(files@.take(files@.len() as int) =~= files@);
    }
    match best {
        Some(s) => Some(string_of(&s)),
        None => None,
    }
}

/// The command file for a player: `cmd_<id>.txt`.
pub fn command_file_name(id: &str) -> (r: String)
    ensures
        r@ == "cmd_"@ + id@ + ".txt"@,
{
    let a = concat(&chars_of("cmd_"), &chars_of(id));
    string_of(&concat(&a, &chars_of(".txt")))
}

/// The command written for the game: trimmed.
pub fn command_text(command: &str) -> (r: String)
    ensures
        r@ == trim_spec(command@),
{
    string_of(&trim(&chars_of(command)))
}

/// Temporary files of a session (case ignored): challenges, trades, battles,
/// parties and commands.
pub open spec fn temp_name(lower: Seq<char>) -> bool {
    ||| has_prefix(lower, "chal"@)
    ||| has_prefix(lower, "chalresp"@)
    ||| has_prefix(lower, "trd_"@)
    ||| has_prefix(lower, "bat_"@)
    ||| has_prefix(lower, "party_"@)
    ||| has_prefix(lower, "partyready_"@)
    ||| has_prefix(lower, "cmd_"@)
}

/// `cleanup_fgl_temp`'s choice of a file to delete, by its name (empty when
/// the name is not valid UTF-8).
pub fn is_temp_peer_file(name: &str) -> (r: bool)
    ensures
        r == temp_name(str_lowercase(name@)),
{
    let lower = lowercase_chars(&chars_of(name));
    starts_with(&lower, &chars_of("chal")) || starts_with(&lower, &chars_of("chalresp"))
        || starts_with(&lower, &chars_of("trd_")) || starts_with(&lower, &chars_of("bat_"))
        || starts_with(&lower, &chars_of("party_")) || starts_with(&lower, &chars_of("partyready_"))
        || starts_with(&lower, &chars_of("cmd_"))
}

/// `write_game_command`'s player id, or its error when no player file is there.
pub fn local_player_id(files: &Vec<PeerFile>) -> (r: Result<String, String>)
    ensures
        match pick_state(files@).0 {
            Some(id) => r matches Ok(s) && s@ == id,
            None => r matches Err(e) && e@ == "no local player id in FGL_peers (lance le jeu d abord)"@,
        },
{
    match pick_player_id(files) {
        Some(id) => Ok(id),
        None => Err(crate::text::owned("no local player id in FGL_peers (lance le jeu d abord)")),
    }
}

} // verus!

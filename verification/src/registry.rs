//! The registry of supported fangames: whether a detected game is allowed,
//! which plugin files it needs, and how they are installed.
use vstd::prelude::*;

use crate::fangame::{clone_opt, opt_view, FangameDetectResult};
use crate::text::{
    chars_of, concat, debug_str, decimal, decimal_spec, has_prefix, list_debug, list_debug_string,
    lowercase_chars, owned, replace_char, replace_char_spec, same_text, seq_eq, starts_with,
    str_debug, str_lowercase, string_of, strings_view, trim, trim_spec,
};

verus! {

/// A supported fangame (parsed from the embedded registry JSON by the app).
pub struct FangameAllowEntry {
    pub id: String,
    pub display_name: String,
    pub title_exact: String,
    pub exe_size_min: u64,
    /// 0 for no maximum.
    pub exe_size_max: u64,
    pub required_files: Vec<String>,
    pub required_dirs: Vec<String>,
    /// Groups of files of which at least one must be there.
    pub required_any_files: Vec<Vec<String>>,
    /// Plugin base names; empty for the three standard plugins.
    pub plugins: Vec<String>,
    pub plugins_source: String,
    pub audio_source: String,
    /// Plugin folder relative to the game root, `/`-separated; empty for
    /// `Data/Scripts/052_AddOns`.
    pub plugin_dest: String,
    /// Audio folder relative to the game root; empty for `Audio/BGM`.
    pub audio_dest: String,
    pub audio_files: Vec<String>,
}

pub struct FangameRegistry {
    pub version: u32,
    pub allowed: Vec<FangameAllowEntry>,
}

/// The verdict on a game (sent to the GUI as JSON by the app).
pub struct FangameAllowResult {
    pub allowed: bool,
    pub fangame_id: Option<String>,
    pub display_name: Option<String>,
    pub reason: String,
    pub title: Option<String>,
    pub exe_size: u64,
    pub plugins_ok: bool,
    pub plugins_missing: Vec<String>,
}

/// Plugin language.
#[derive(Clone, Copy, PartialEq, Eq, Structural, Debug)]
pub enum Lang {
    Fr,
    En,
}

/// The plugin sources built into the launcher.
#[derive(Clone, Copy, PartialEq, Eq, Structural, Debug)]
pub enum EmbeddedPlugin {
    BattleFr,
    BattleEn,
    TradeFr,
    TradeEn,
    NetFr,
    NetEn,
}

/// A folder under the game root.
pub enum DestDir {
    /// The standard folder.
    Default,
    /// A relative path with the platform's separators.
    Relative(String),
}

/// What the file system says about an entry's required folders and files,
/// index by index (a missing index counts as absent).
pub struct EntryProbe {
    pub dirs_present: Vec<bool>,
    pub files_present: Vec<bool>,
    pub any_present: Vec<Vec<bool>>,
}

/// What the file system says about the matched entry: its requirements, and
/// whether each plugin file (in `plugin_bases` order) is in place.
pub struct AllowProbe {
    pub entry: EntryProbe,
    pub plugins_present: Vec<bool>,
}

// ------------------------------------------------------------------
// Languages and plugin files
// ------------------------------------------------------------------

/// English when the language, lower-cased, starts with `en`; French otherwise.
pub open spec fn lang_spec(lang: Seq<char>) -> Lang {
    if has_prefix(str_lowercase(lang), "en"@) {
        Lang::En
    } else {
        Lang::Fr
    }
}

pub fn lang_from(lang: &str) -> (r: Lang)
    ensures
        r == lang_spec(lang@),
{
    let lower = lowercase_chars(&chars_of(lang));
    if starts_with(&lower, &chars_of("en")) {
        Lang::En
    } else {
        Lang::Fr
    }
}

pub open spec fn lang_code(l: Lang) -> Seq<char> {
    match l {
        Lang::En => "EN"@,
        Lang::Fr => "FR"@,
    }
}

pub open spec fn other_lang(l: Lang) -> Lang {
    match l {
        Lang::En => Lang::Fr,
        Lang::Fr => Lang::En,
    }
}

impl Lang {
    pub fn code(&self) -> (r: String)
        ensures
            r@ == lang_code(*self),
    {
        match self {
            Lang::En => owned("EN"),
            Lang::Fr => owned("FR"),
        }
    }

    pub fn other(&self) -> (r: Lang)
        ensures
            r == other_lang(*self),
    {
        match self {
            Lang::En => Lang::Fr,
            Lang::Fr => Lang::En,
        }
    }
}

/// The built-in source of a plugin in a language, when there is one.
pub open spec fn embedded_spec(base: Seq<char>, lang: Lang) -> Option<EmbeddedPlugin> {
    if base == "FGL_Battle"@ {
        Some(
            match lang {
                Lang::Fr => EmbeddedPlugin::BattleFr,
                Lang::En => EmbeddedPlugin::BattleEn,
            },
        )
    } else if base == "FGL_Trade"@ {
        Some(
            match lang {
                Lang::Fr => EmbeddedPlugin::TradeFr,
                Lang::En => EmbeddedPlugin::TradeEn,
            },
        )
    } else if base == "FGL_Net"@ {
        Some(
            match lang {
                Lang::Fr => EmbeddedPlugin::NetFr,
                Lang::En => EmbeddedPlugin::NetEn,
            },
        )
    } else {
        None
    }
}

/// The language a built-in plugin source is written in.
pub open spec fn plugin_lang(p: EmbeddedPlugin) -> Lang {
    match p {
        EmbeddedPlugin::BattleFr | EmbeddedPlugin::TradeFr | EmbeddedPlugin::NetFr => Lang::Fr,
        EmbeddedPlugin::BattleEn | EmbeddedPlugin::TradeEn | EmbeddedPlugin::NetEn => Lang::En,
    }
}

/// The plugin a built-in source implements.
pub open spec fn plugin_base(p: EmbeddedPlugin) -> Seq<char> {
    match p {
        EmbeddedPlugin::BattleFr | EmbeddedPlugin::BattleEn => "FGL_Battle"@,
        EmbeddedPlugin::TradeFr | EmbeddedPlugin::TradeEn => "FGL_Trade"@,
        EmbeddedPlugin::NetFr | EmbeddedPlugin::NetEn => "FGL_Net"@,
    }
}

/// Law: each of the three standard plugins has a built-in source in each
/// language, and the source chosen for a plugin and a language is that
/// plugin's, in that language (so the two languages never get the same
/// source); any other plugin has none.
pub proof fn lemma_embedded_plugin_language(base: Seq<char>, lang: Lang)
    ensures
        (base == "FGL_Battle"@ || base == "FGL_Trade"@ || base == "FGL_Net"@) <==> embedded_spec(
            base,
            lang,
        ) is Some,
        embedded_spec(base, lang) matches Some(p) ==> plugin_lang(p) == lang && plugin_base(p)
            == base,
        embedded_spec(base, lang) is Some ==> embedded_spec(base, other_lang(lang)) is Some
            && embedded_spec(base, lang) != embedded_spec(base, other_lang(lang)),
{
}

/// `embedded_plugin_src`: the built-in plugin, or `plugin inconnu: base_LANG`.
pub fn embedded_plugin(base: &str, lang: Lang) -> (r: Result<EmbeddedPlugin, String>)
    ensures
        match embedded_spec(base@, lang) {
            Some(p) => r == Ok::<EmbeddedPlugin, String>(p),
            None => r matches Err(e) && e@ == "plugin inconnu: "@ + base@ + "_"@ + lang_code(lang),
        },
{
    if same_text(base, "FGL_Battle") {
        Ok(
            match lang {
                Lang::Fr => EmbeddedPlugin::BattleFr,
                Lang::En => EmbeddedPlugin::BattleEn,
            },
        )
    } else if same_text(base, "FGL_Trade") {
        Ok(
            match lang {
                Lang::Fr => EmbeddedPlugin::TradeFr,
                Lang::En => EmbeddedPlugin::TradeEn,
            },
        )
    } else if same_text(base, "FGL_Net") {
        Ok(
            match lang {
                Lang::Fr => EmbeddedPlugin::NetFr,
                Lang::En => EmbeddedPlugin::NetEn,
            },
        )
    } else {
        let a = concat(&chars_of("plugin inconnu: "), &chars_of(base));
        let b = concat(&a, &chars_of("_"));
        Err(string_of(&concat(&b, &chars_of(lang.code().as_str()))))
    }
}

/// The plugins of an entry: those listed, or the three standard ones.
pub open spec fn plugin_bases_spec(entry: FangameAllowEntry) -> Seq<Seq<char>> {
    if entry.plugins@.len() == 0 {
        seq!["FGL_Battle"@, "FGL_Trade"@, "FGL_Net"@]
    } else {
        strings_view(entry.plugins@)
    }
}

pub fn plugin_bases(entry: &FangameAllowEntry) -> (r: Vec<String>)
    ensures
        strings_view(r@) == plugin_bases_spec(*entry),
{
    let mut r: Vec<String> = Vec::new();
    if entry.plugins.len() == 0 {
        r.push(owned("FGL_Battle"));
        r.push(owned("FGL_Trade"));
        r.push(owned("FGL_Net"));
        proof {
            assert(strings_view(r@) =~= plugin_bases_spec(*entry));
        }
        return r;
    }
    let mut i: usize = 0;
    while i < entry.plugins.len()
        invariant
            i <= entry.plugins@.len(),
            strings_view(r@) == strings_view(entry.plugins@).take(i as int),
        decreases entry.plugins@.len() - i,
    {
        let c = entry.plugins[i].clone();
        let ghost before = r@;
        r.push(c);
        proof {
            assert(r@ == before.push(c));
            assert(strings_view(r@) =~= strings_view(before).push(c@));
            assert(c@ == entry.plugins@[i as int]@);
            assert(strings_view(entry.plugins@).take(i + 1) =~= strings_view(entry.plugins@).take(
                i as int,
            ).push(entry.plugins@[i as int]@));
        }
        i += 1;
    }
    proof {
        assert(strings_view(entry.plugins@).take(i as int) =~= strings_view(entry.plugins@));
    }
    r
}

/// A plugin's file name: `base_LANG.rb`.
pub open spec fn plugin_file_spec(base: Seq<char>, lang: Lang) -> Seq<char> {
    base + "_"@ + lang_code(lang) + ".rb"@
}

pub fn plugin_file_name(base: &str, lang: Lang) -> (r: String)
    ensures
        r@ == plugin_file_spec(base@, lang),
{
    let a = concat(&chars_of(base), &chars_of("_"));
    let b = concat(&a, &chars_of(lang.code().as_str()));
    string_of(&concat(&b, &chars_of(".rb")))
}

/// `join_rel`'s path text: `/` replaced by the platform separator.
pub fn native_rel(rel: &str, sep: char) -> (r: String)
    ensures
        r@ == replace_char_spec(rel@, '/', sep),
{
    string_of(&replace_char(&chars_of(rel), '/', sep))
}

/// Where plugins go: the entry's folder, or `Data/Scripts/052_AddOns`.
pub fn plugin_dest(entry: &FangameAllowEntry, sep: char) -> (r: DestDir)
    ensures
        entry.plugin_dest@.len() == 0 ==> r is Default,
        entry.plugin_dest@.len() != 0 ==> (r matches DestDir::Relative(p) && p@ == replace_char_spec(
            entry.plugin_dest@,
            '/',
            sep,
        )),
{
    if entry.plugin_dest.as_str().is_empty() {
        DestDir::Default
    } else {
        DestDir::Relative(native_rel(entry.plugin_dest.as_str(), sep))
    }
}

/// Where the battle music goes: the entry's folder, or `Audio/BGM`.
pub fn audio_dest(entry: &FangameAllowEntry, sep: char) -> (r: DestDir)
    ensures
        entry.audio_dest@.len() == 0 ==> r is Default,
        entry.audio_dest@.len() != 0 ==> (r matches DestDir::Relative(p) && p@ == replace_char_spec(
            entry.audio_dest@,
            '/',
            sep,
        )),
{
    if entry.audio_dest.as_str().is_empty() {
        DestDir::Default
    } else {
        DestDir::Relative(native_rel(entry.audio_dest.as_str(), sep))
    }
}

/// The plugin files not in place, in order (`check_plugins_on_disk`).
pub open spec fn missing_spec(bases: Seq<Seq<char>>, lang: Lang, present: Seq<bool>) -> Seq<
    Seq<char>,
>
    decreases bases.len(),
{
    if bases.len() == 0 {
        Seq::empty()
    } else {
        let i = bases.len() - 1;
        missing_spec(bases.drop_last(), lang, present) + if present_at(present, i) {
            Seq::empty()
        } else {
            seq![plugin_file_spec(bases[i], lang)]
        }
    }
}

pub open spec fn present_at(p: Seq<bool>, i: int) -> bool {
    0 <= i < p.len() && p[i]
}

/// `check_plugins_on_disk` once each file is probed: whether all are there,
/// and the missing ones.
pub fn missing_plugins(bases: &Vec<String>, lang: Lang, present: &Vec<bool>) -> (r: (
    bool,
    Vec<String>,
))
    ensures
        strings_view(r.1@) == missing_spec(strings_view(bases@), lang, present@),
        r.0 == (r.1@.len() == 0),
{
    let ghost bv = strings_view(bases@);
    let mut missing: Vec<String> = Vec::new();
    let mut i: usize = 0;
    proof {
        assert(bv.take(0) =~= Seq::<Seq<char>>::empty());
        assert(strings_view(missing@) =~= Seq::<Seq<char>>::empty());
    }
    while i < bases.len()
        invariant
            i <= bases@.len(),
            bv == strings_view(bases@),
            strings_view(missing@) == missing_spec(bv.take(i as int), lang, present@),
        decreases bases@.len() - i,
    {
        proof {
            assert(bv.take(i + 1).drop_last() =~= bv.take(i as int));
            assert(bv.take(i + 1)[i as int] == bases@[i as int]@);
        }
        let here = i < present.len() && present[i];
        if !here {
            missing.push(plugin_file_name(bases[i].as_str(), lang));
        }
        proof {
            assert(strings_view(missing@) =~= missing_spec(bv.take(i + 1), lang, present@));
        }
        i += 1;
    }
    proof {
        assert(bv.take(i as int) =~= bv);
    }
    (missing.len() == 0, missing)
}

// ------------------------------------------------------------------
// Validating an entry
// ------------------------------------------------------------------

/// The first required item not present.
pub open spec fn first_absent(count: nat, present: Seq<bool>) -> Option<int>
    decreases count,
{
    if count == 0 {
        None
    } else {
        match first_absent((count - 1) as nat, present) {
            Some(i) => Some(i),
            None => if present_at(present, count - 1) {
                None
            } else {
                Some(count - 1)
            },
        }
    }
}

/// A group of files fails when it names files and none is there.
pub open spec fn group_fails(size: nat, present: Seq<bool>) -> bool {
    size > 0 && forall|j: int| 0 <= j < size ==> !#[trigger] present_at(present, j)
}

pub open spec fn first_failed_group(groups: Seq<Seq<Seq<char>>>, present: Seq<Seq<bool>>) -> Option<
    int,
>
    decreases groups.len(),
{
    if groups.len() == 0 {
        None
    } else {
        let i = groups.len() - 1;
        match first_failed_group(groups.drop_last(), present) {
            Some(g) => Some(g),
            None => if group_fails(
                groups[i].len(),
                if i < present.len() {
                    present[i]
                } else {
                    Seq::empty()
                },
            ) {
                Some(i)
            } else {
                None
            },
        }
    }
}

pub open spec fn groups_view(g: Seq<Vec<String>>) -> Seq<Seq<Seq<char>>> {
    g.map_values(|v: Vec<String>| strings_view(v@))
}

pub open spec fn presence_view(p: Seq<Vec<bool>>) -> Seq<Seq<bool>> {
    p.map_values(|v: Vec<bool>| v@)
}

/// Why an entry rejects a game (`validate_entry`), checked in this order: the
/// title (trimmed) differs, the executable is too small or too large, a
/// required folder or file is missing, or no file of a group is there.
pub open spec fn validate_spec(
    entry: FangameAllowEntry,
    title: Seq<char>,
    exe_size: u64,
    probe: EntryProbe,
) -> Option<Seq<char>> {
    let got = trim_spec(title);
    let want = trim_spec(entry.title_exact@);
    let groups = groups_view(entry.required_any_files@);
    if got != want {
        Some("Titre incorrect (obtenu "@ + str_debug(got) + ", requis "@ + str_debug(want) + ")"@)
    } else if exe_size < entry.exe_size_min {
        Some(
            "Game.exe trop petit ("@ + decimal_spec(exe_size as nat) + " < min "@ + decimal_spec(
                entry.exe_size_min as nat,
            ) + ")"@,
        )
    } else if entry.exe_size_max > 0 && exe_size > entry.exe_size_max {
        Some(
            "Game.exe trop grand ("@ + decimal_spec(exe_size as nat) + " > max "@ + decimal_spec(
                entry.exe_size_max as nat,
            ) + ")"@,
        )
    } else if first_absent(entry.required_dirs@.len(), probe.dirs_present@) is Some {
        Some(
            "Dossier manquant: "@ + entry.required_dirs@[first_absent(
                entry.required_dirs@.len(),
                probe.dirs_present@,
            )->0]@,
        )
    } else if first_absent(entry.required_files@.len(), probe.files_present@) is Some {
        Some(
            "Fichier manquant: "@ + entry.required_files@[first_absent(
                entry.required_files@.len(),
                probe.files_present@,
            )->0]@,
        )
    } else if first_failed_group(groups, presence_view(probe.any_present@)) is Some {
        Some(
            "Fichier manquant (un de): "@ + list_debug(
                groups[first_failed_group(groups, presence_view(probe.any_present@))->0],
            ),
        )
    } else {
        None
    }
}

proof fn lemma_first_absent_none(count: nat, present: Seq<bool>)
    requires
        count <= present.len(),
        forall|i: int| 0 <= i < count ==> #[trigger] present[i],
    ensures
        first_absent(count, present) is None,
    decreases count,
{
    if count > 0 {
        lemma_first_absent_none((count - 1) as nat, present);
        let k: int = count - 1;
        assert(present[k]);
        assert(present_at(present, k));
    }
}

/// Every group of `groups` with files has one of them present.
pub open spec fn groups_met(groups: Seq<Seq<Seq<char>>>, present: Seq<Seq<bool>>) -> bool {
    forall|g: int|
        0 <= g < groups.len() ==> #[trigger] groups[g].len() == 0 || (g < present.len() && exists|
            j: int,
        | 0 <= j < groups[g].len() && j < present[g].len() && #[trigger] present[g][j])
}

proof fn lemma_groups_met_none(groups: Seq<Seq<Seq<char>>>, present: Seq<Seq<bool>>)
    requires
        groups_met(groups, present),
    ensures
        first_failed_group(groups, present) is None,
    decreases groups.len(),
{
    if groups.len() > 0 {
        let i = groups.len() - 1;
        assert(groups_met(groups.drop_last(), present)) by {
            assert forall|g: int| 0 <= g < groups.drop_last().len() implies #[trigger] groups.drop_last()[g].len()
                == 0 || (g < present.len() && exists|j: int|
                0 <= j < groups.drop_last()[g].len() && j < present[g].len() && #[trigger] present[g][j]) by {
                assert(groups.drop_last()[g] == groups[g]);
                assert(groups[g].len() == 0 || (g < present.len() && exists|j: int|
                    0 <= j < groups[g].len() && j < present[g].len() && #[trigger] present[g][j]));
            }
        }
        lemma_groups_met_none(groups.drop_last(), present);
        assert(groups[i].len() == 0 || (i < present.len() && exists|j: int|
            0 <= j < groups[i].len() && j < present[i].len() && #[trigger] present[i][j]));
        if groups[i].len() > 0 {
            let j = choose|j: int| 0 <= j < groups[i].len() && j < present[i].len() && #[trigger] present[i][j];
            assert(present_at(present[i], j));
        }
    }
}

proof fn lemma_failed_group_some(groups: Seq<Seq<Seq<char>>>, present: Seq<Seq<bool>>, g: int)
    requires
        0 <= g < groups.len(),
        groups[g].len() > 0,
        forall|j: int| 0 <= j < groups[g].len() ==> !(g < present.len() && j < present[g].len() && #[trigger] present[g][j]),
    ensures
        first_failed_group(groups, present) is Some,
    decreases groups.len(),
{
    let i = groups.len() - 1;
    if g < i {
        assert(groups.drop_last()[g] == groups[g]);
        lemma_failed_group_some(groups.drop_last(), present, g);
    } else {
        let p = if i < present.len() { present[i] } else { Seq::<bool>::empty() };
        assert forall|j: int| 0 <= j < groups[i].len() implies !#[trigger] present_at(p, j) by {
            if i < present.len() && j < present[i].len() {
                assert(!present[i][j]);
            }
        }
    }
}

/// Law: a game whose required folders and files are all there, and that has at
/// least one file of each non-empty "one of" group, is refused only for its
/// title or the size of its executable: which file of a group is there does
/// not matter.
pub proof fn lemma_present_files_pass(
    entry: FangameAllowEntry,
    title: Seq<char>,
    exe_size: u64,
    probe: EntryProbe,
)
    requires
        entry.required_dirs@.len() <= probe.dirs_present@.len(),
        forall|i: int| 0 <= i < entry.required_dirs@.len() ==> #[trigger] probe.dirs_present@[i],
        entry.required_files@.len() <= probe.files_present@.len(),
        forall|i: int| 0 <= i < entry.required_files@.len() ==> #[trigger] probe.files_present@[i],
        forall|g: int|
            0 <= g < entry.required_any_files@.len() ==> #[trigger] entry.required_any_files@[g]@.len()
                == 0 || (g < probe.any_present@.len() && exists|j: int|
                0 <= j < entry.required_any_files@[g]@.len() && j < probe.any_present@[g]@.len()
                    && #[trigger] probe.any_present@[g]@[j]),
    ensures
        validate_spec(entry, title, exe_size, probe) is None <==> {
            &&& trim_spec(title) == trim_spec(entry.title_exact@)
            &&& exe_size >= entry.exe_size_min
            &&& !(entry.exe_size_max > 0 && exe_size > entry.exe_size_max)
        },
{
    lemma_first_absent_none(entry.required_dirs@.len(), probe.dirs_present@);
    lemma_first_absent_none(entry.required_files@.len(), probe.files_present@);
    let groups = groups_view(entry.required_any_files@);
    let pv = presence_view(probe.any_present@);
    assert(groups_met(groups, pv)) by {
        assert forall|g: int| 0 <= g < groups.len() implies #[trigger] groups[g].len() == 0 || (g
            < pv.len() && exists|j: int| 0 <= j < groups[g].len() && j < pv[g].len() && #[trigger] pv[g][j]) by {
            assert(groups[g] == strings_view(entry.required_any_files@[g]@));
            assert(entry.required_any_files@[g]@.len() == 0 || (g < probe.any_present@.len() && exists|j: int|
                0 <= j < entry.required_any_files@[g]@.len() && j < probe.any_present@[g]@.len()
                    && #[trigger] probe.any_present@[g]@[j]));
            if groups[g].len() > 0 {
                let j = choose|j: int|
                    0 <= j < entry.required_any_files@[g]@.len() && j < probe.any_present@[g]@.len()
                        && #[trigger] probe.any_present@[g]@[j];
                assert(pv[g] == probe.any_present@[g]@);
                assert(pv[g][j]);
            }
        }
    }
    lemma_groups_met_none(groups, pv);
}

/// Law: a non-empty "one of" group none of whose files is there gets the game
/// refused, whatever else holds.
pub proof fn lemma_group_without_files_refused(
    entry: FangameAllowEntry,
    title: Seq<char>,
    exe_size: u64,
    probe: EntryProbe,
    g: int,
)
    requires
        0 <= g < entry.required_any_files@.len(),
        entry.required_any_files@[g]@.len() > 0,
        forall|j: int|
            0 <= j < entry.required_any_files@[g]@.len() ==> !(g < probe.any_present@.len() && j
                < probe.any_present@[g]@.len() && #[trigger] probe.any_present@[g]@[j]),
    ensures
        validate_spec(entry, title, exe_size, probe) is Some,
{
    let groups = groups_view(entry.required_any_files@);
    let pv = presence_view(probe.any_present@);
    assert(groups[g] == strings_view(entry.required_any_files@[g]@));
    assert forall|j: int| 0 <= j < groups[g].len() implies !(g < pv.len() && j < pv[g].len() && #[trigger] pv[g][j]) by {
        if g < pv.len() {
            assert(pv[g] == probe.any_present@[g]@);
        }
    }
    lemma_failed_group_some(groups, pv, g);
}

fn first_absent_exec(count: usize, present: &Vec<bool>) -> (r: Option<usize>)
    ensures
        match r {
            Some(i) => first_absent(count as nat, present@) == Some(i as int) && i < count,
            None => first_absent(count as nat, present@) is None,
        },
{
    let mut i: usize = 0;
    while i < count
        invariant
            i <= count,
            first_absent(i as nat, present@) is None,
        decreases count - i,
    {
        if !(i < present.len() && present[i]) {
            proof {
                assert(first_absent((i + 1) as nat, present@) == Some(i as int));
                lemma_first_absent_stable(i as int, (i + 1) as nat, count as nat, present@);
            }
            return Some(i);
        }
        i += 1;
    }
    None
}

proof fn lemma_first_absent_stable(k: int, from: nat, to: nat, present: Seq<bool>)
    requires
        from <= to,
        first_absent(from, present) == Some(k),
    ensures
        first_absent(to, present) == Some(k),
    decreases to - from,
{
    if from < to {
        lemma_first_absent_stable(k, from, (to - 1) as nat, present);
    }
}

fn group_fails_exec(size: usize, present: &Vec<bool>) -> (r: bool)
    ensures
        r == group_fails(size as nat, present@),
{
    if size == 0 {
        return false;
    }
    let mut j: usize = 0;
    while j < size
        invariant
            j <= size,
            forall|k: int| 0 <= k < j ==> !#[trigger] present_at(present@, k),
        decreases size - j,
    {
        if j < present.len() && present[j] {
            proof {
                assert(present_at(present@, j as int));
            }
            return false;
        }
        j += 1;
    }
    true
}

fn first_failed_group_exec(groups: &Vec<Vec<String>>, present: &Vec<Vec<bool>>) -> (r: Option<usize>)
    ensures
        match r {
            Some(g) => first_failed_group(groups_view(groups@), presence_view(present@)) == Some(
                g as int,
            ) && g < groups.len(),
            None => first_failed_group(groups_view(groups@), presence_view(present@)) is None,
        },
{
    let ghost gv = groups_view(groups@);
    let ghost pv = presence_view(present@);
    let mut i: usize = 0;
    while i < groups.len()
        invariant
            i <= groups@.len(),
            gv == groups_view(groups@),
            pv == presence_view(present@),
            first_failed_group(gv.take(i as int), pv) is None,
        decreases groups@.len() - i,
    {
        let empty: Vec<bool> = Vec::new();
        let p = if i < present.len() {
            &present[i]
        } else {
            &empty
        };
        let fails = group_fails_exec(groups[i].len(), p);
        proof {
            let t = gv.take(i + 1);
            assert(t.drop_last() =~= gv.take(i as int));
            assert(t[i as int].len() == groups@[i as int]@.len());
            if i < present.len() {
                assert(pv[i as int] == present@[i as int]@);
            } else {
                assert(p@ =~= Seq::<bool>::empty());
            }
        }
        if fails {
            proof {
                assert(first_failed_group(gv.take(i + 1), pv) == Some(i as int));
                lemma_failed_group_stable(gv, pv, i as int, i + 1);
            }
            return Some(i);
        }
        i += 1;
    }
    proof {
        assert(gv.take(i as int) =~= gv);
    }
    None
}

proof fn lemma_failed_group_stable(gv: Seq<Seq<Seq<char>>>, pv: Seq<Seq<bool>>, g: int, from: int)
    requires
        0 <= from <= gv.len(),
        first_failed_group(gv.take(from), pv) == Some(g),
    ensures
        first_failed_group(gv, pv) == Some(g),
    decreases gv.len() - from,
{
    if from < gv.len() {
        assert(gv.take(from + 1).drop_last() =~= gv.take(from));
        lemma_failed_group_stable(gv, pv, g, from + 1);
    } else {
        assert(gv.take(from) =~= gv);
    }
}

/// `validate_entry` once the required folders and files are probed.
pub fn validate_entry(entry: &FangameAllowEntry, title: &str, exe_size: u64, probe: &EntryProbe) -> (r:
    Result<(), String>)
    ensures
        match validate_spec(*entry, title@, exe_size, *probe) {
            Some(m) => r matches Err(e) && e@ == m,
            None => r is Ok,
        },
{
    let got = trim(&chars_of(title));
    let want = trim(&chars_of(entry.title_exact.as_str()));
    if !seq_eq(&got, &want) {
        let g = chars_of(debug_str(string_of(&got).as_str()).as_str());
        let w = chars_of(debug_str(string_of(&want).as_str()).as_str());
        let a = concat(&chars_of("Titre incorrect (obtenu "), &g);
        let b = concat(&concat(&a, &chars_of(", requis ")), &w);
        return Err(string_of(&concat(&b, &chars_of(")"))));
    }
    if exe_size < entry.exe_size_min {
        let a = concat(&chars_of("Game.exe trop petit ("), &decimal(exe_size));
        let b = concat(&concat(&a, &chars_of(" < min ")), &decimal(entry.exe_size_min));
        return Err(string_of(&concat(&b, &chars_of(")"))));
    }
    if entry.exe_size_max > 0 && exe_size > entry.exe_size_max {
        let a = concat(&chars_of("Game.exe trop grand ("), &decimal(exe_size));
        let b = concat(&concat(&a, &chars_of(" > max ")), &decimal(entry.exe_size_max));
        return Err(string_of(&concat(&b, &chars_of(")"))));
    }
    match first_absent_exec(entry.required_dirs.len(), &probe.dirs_present) {
        Some(i) => {
            let a = concat(
                &chars_of("Dossier manquant: "),
                &chars_of(entry.required_dirs[i].as_str()),
            );
            return Err(string_of(&a));
        },
        None => {},
    }
    match first_absent_exec(entry.required_files.len(), &probe.files_present) {
        Some(i) => {
            let a = concat(
                &chars_of("Fichier manquant: "),
                &chars_of(entry.required_files[i].as_str()),
            );
            return Err(string_of(&a));
        },
        None => {},
    }
    match first_failed_group_exec(&entry.required_any_files, &probe.any_present) {
        Some(g) => {
            proof {
                assert(groups_view(entry.required_any_files@)[g as int] == strings_view(
                    entry.required_any_files@[g as int]@,
                ));
            }
            let d = list_debug_string(&entry.required_any_files[g]);
            let a = concat(&chars_of("Fichier manquant (un de): "), &chars_of(d.as_str()));
            return Err(string_of(&a));
        },
        None => {},
    }
    Ok(())
}

// ------------------------------------------------------------------
// The verdict
// ------------------------------------------------------------------

/// The detected title, or empty.
pub open spec fn title_or_empty(info: FangameDetectResult) -> Seq<char> {
    match info.game_title {
        Some(t) => t@,
        None => Seq::empty(),
    }
}

/// The first registry entry whose title (trimmed) is the given title
/// (trimmed).
pub open spec fn match_spec(entries: Seq<FangameAllowEntry>, title: Seq<char>) -> Option<int>
    decreases entries.len(),
{
    if entries.len() == 0 {
        None
    } else {
        match match_spec(entries.drop_last(), title) {
            Some(i) => Some(i),
            None => if trim_spec(title) == trim_spec(entries.last().title_exact@) {
                Some(entries.len() - 1)
            } else {
                None
            },
        }
    }
}

proof fn lemma_match_stable(entries: Seq<FangameAllowEntry>, title: Seq<char>, i: int, from: int)
    requires
        0 <= from <= entries.len(),
        match_spec(entries.take(from), title) == Some(i),
    ensures
        match_spec(entries, title) == Some(i),
    decreases entries.len() - from,
{
    if from < entries.len() {
        assert(entries.take(from + 1).drop_last() =~= entries.take(from));
        lemma_match_stable(entries, title, i, from + 1);
    } else {
        assert(entries.take(from) =~= entries);
    }
}

/// The registry entry a title matches.
pub fn match_registry(reg: &FangameRegistry, title: &str) -> (r: Option<usize>)
    ensures
        match r {
            Some(i) => match_spec(reg.allowed@, title@) == Some(i as int) && i < reg.allowed.len(),
            None => match_spec(reg.allowed@, title@) is None,
        },
{
    let t = trim(&chars_of(title));
    let mut i: usize = 0;
    while i < reg.allowed.len()
        invariant
            i <= reg.allowed@.len(),
            t@ == trim_spec(title@),
            match_spec(reg.allowed@.take(i as int), title@) is None,
        decreases reg.allowed@.len() - i,
    {
        proof {
            assert(reg.allowed@.take(i + 1).drop_last() =~= reg.allowed@.take(i as int));
            assert(reg.allowed@.take(i + 1).last() == reg.allowed@[i as int]);
        }
        let want = trim(&chars_of(reg.allowed[i].title_exact.as_str()));
        if seq_eq(&t, &want) {
            proof {
                lemma_match_stable(reg.allowed@, title@, i as int, i + 1);
            }
            return Some(i);
        }
        i += 1;
    }
    proof {
        assert(reg.allowed@.take(i as int) =~= reg.allowed@);
    }
    None
}

/// The detected title as text (`unwrap_or_default`).
pub fn title_text(info: &FangameDetectResult) -> (r: String)
    ensures
        r@ == title_or_empty(*info),
{
    match &info.game_title {
        Some(t) => t.clone(),
        None => String::new(),
    }
}

/// `is_fangame_allowed_lang` once everything is read: an unusable game, a title
/// absent from the registry, and a failed requirement are refused with the
/// reason; an accepted game also reports its missing plugin files.
pub fn allow_result(
    info: &FangameDetectResult,
    reg: &FangameRegistry,
    lang: Lang,
    probe: &AllowProbe,
) -> (r: FangameAllowResult)
    ensures
        opt_view(r.title) == opt_view(info.game_title),
        r.exe_size == info.game_exe_size,
        !info.ok ==> {
            &&& !r.allowed
            &&& r.fangame_id is None
            &&& r.display_name is None
            &&& r.reason@ == "Fangame invalide: "@ + info.message@
            &&& !r.plugins_ok
            &&& r.plugins_missing@.len() == 0
        },
        info.ok && match_spec(reg.allowed@, title_or_empty(*info)) is None ==> {
            &&& !r.allowed
            &&& r.fangame_id is None
            &&& r.display_name is None
            &&& r.reason@ == "Fangame non autorise (titre "@ + str_debug(title_or_empty(*info))
                + "). Seul infinitefusion est supporte."@
            &&& !r.plugins_ok
            &&& r.plugins_missing@.len() == 0
        },
        info.ok && match_spec(reg.allowed@, title_or_empty(*info)) is Some ==> {
            let e = reg.allowed@[match_spec(reg.allowed@, title_or_empty(*info))->0];
            let verdict = validate_spec(e, title_or_empty(*info), info.game_exe_size, probe.entry);
            let missing = missing_spec(plugin_bases_spec(e), lang, probe.plugins_present@);
            &&& opt_view(r.fangame_id) == Some(e.id@)
            &&& opt_view(r.display_name) == Some(e.display_name@)
            &&& r.allowed == verdict is None
            &&& verdict matches Some(m) ==> {
                &&& r.reason@ == m
                &&& !r.plugins_ok
                &&& r.plugins_missing@.len() == 0
            }
            &&& verdict is None ==> {
                &&& strings_view(r.plugins_missing@) == missing
                &&& r.plugins_ok == (missing.len() == 0)
                &&& r.reason@ == if missing.len() == 0 {
                    "OK"@
                } else {
                    "OK fangame, plugins manquants: "@ + list_debug(missing)
                }
            }
        },
{
    let title = clone_opt(&info.game_title);
    if !info.ok {
        let reason = concat(&chars_of("Fangame invalide: "), &chars_of(info.message.as_str()));
        return FangameAllowResult {
            allowed: false,
            fangame_id: None,
            display_name: None,
            reason: string_of(&reason),
            title,
            exe_size: info.game_exe_size,
            plugins_ok: false,
            plugins_missing: Vec::new(),
        };
    }
    let title_str = title_text(info);
    match match_registry(reg, title_str.as_str()) {
        None => {
            let d = debug_str(title_str.as_str());
            let a = concat(&chars_of("Fangame non autorise (titre "), &chars_of(d.as_str()));
            let b = concat(&a, &chars_of("). Seul infinitefusion est supporte."));
            FangameAllowResult {
                allowed: false,
                fangame_id: None,
                display_name: None,
                reason: string_of(&b),
                title,
                exe_size: info.game_exe_size,
                plugins_ok: false,
                plugins_missing: Vec::new(),
            }
        },
        Some(i) => {
            let entry = &reg.allowed[i];
            match validate_entry(entry, title_str.as_str(), info.game_exe_size, &probe.entry) {
                Err(reason) => FangameAllowResult {
                    allowed: false,
                    fangame_id: Some(entry.id.clone()),
                    display_name: Some(entry.display_name.clone()),
                    reason,
                    title,
                    exe_size: info.game_exe_size,
                    plugins_ok: false,
                    plugins_missing: Vec::new(),
                },
                Ok(()) => {
                    let bases = plugin_bases(entry);
                    let (plugins_ok, plugins_missing) = missing_plugins(
                        &bases,
                        lang,
                        &probe.plugins_present,
                    );
                    let reason = if plugins_ok {
                        owned("OK")
                    } else {
                        let d = list_debug_string(&plugins_missing);
                        string_of(
                            &concat(
                                &chars_of("OK fangame, plugins manquants: "),
                                &chars_of(d.as_str()),
                            ),
                        )
                    };
                    FangameAllowResult {
                        allowed: true,
                        fangame_id: Some(entry.id.clone()),
                        display_name: Some(entry.display_name.clone()),
                        reason,
                        title,
                        exe_size: info.game_exe_size,
                        plugins_ok,
                        plugins_missing,
                    }
                },
            }
        },
    }
}

// ------------------------------------------------------------------
// Installing plugins
// ------------------------------------------------------------------

/// `install_fgl_plugins`: the registry entry to install, by the verdict's id
/// (`infinite_fusion` when it has none).
pub fn install_entry_id(allow: &FangameAllowResult) -> (r: String)
    ensures
        r@ == match allow.fangame_id {
            Some(id) => id@,
            None => "infinite_fusion"@,
        },
{
    match &allow.fangame_id {
        Some(id) => id.clone(),
        None => owned("infinite_fusion"),
    }
}

/// The first registry entry with this id.
pub open spec fn entry_by_id_spec(entries: Seq<FangameAllowEntry>, id: Seq<char>) -> Option<int>
    decreases entries.len(),
{
    if entries.len() == 0 {
        None
    } else {
        match entry_by_id_spec(entries.drop_last(), id) {
            Some(i) => Some(i),
            None => if entries.last().id@ == id {
                Some(entries.len() - 1)
            } else {
                None
            },
        }
    }
}

proof fn lemma_id_stable(entries: Seq<FangameAllowEntry>, id: Seq<char>, i: int, from: int)
    requires
        0 <= from <= entries.len(),
        entry_by_id_spec(entries.take(from), id) == Some(i),
    ensures
        entry_by_id_spec(entries, id) == Some(i),
    decreases entries.len() - from,
{
    if from < entries.len() {
        assert(entries.take(from + 1).drop_last() =~= entries.take(from));
        lemma_id_stable(entries, id, i, from + 1);
    } else {
        assert(entries.take(from) =~= entries);
    }
}

pub fn entry_by_id(reg: &FangameRegistry, id: &str) -> (r: Option<usize>)
    ensures
        match r {
            Some(i) => entry_by_id_spec(reg.allowed@, id@) == Some(i as int) && i < reg.allowed.len(),
            None => entry_by_id_spec(reg.allowed@, id@) is None,
        },
{
    let mut i: usize = 0;
    while i < reg.allowed.len()
        invariant
            i <= reg.allowed@.len(),
            entry_by_id_spec(reg.allowed@.take(i as int), id@) is None,
        decreases reg.allowed@.len() - i,
    {
        proof {
            assert(reg.allowed@.take(i + 1).drop_last() =~= reg.allowed@.take(i as int));
            assert(reg.allowed@.take(i + 1).last() == reg.allowed@[i as int]);
        }
        if same_text(reg.allowed[i].id.as_str(), id) {
            proof {
                lemma_id_stable(reg.allowed@, id@, i as int, i + 1);
            }
            return Some(i);
        }
        i += 1;
    }
    proof {
        assert(reg.allowed@.take(i as int) =~= reg.allowed@);
    }
    None
}

/// One plugin of an install: the file in the other language, removed first,
/// then the built-in source written under the file name for the language.
pub struct InstallStep {
    pub remove: String,
    pub plugin: EmbeddedPlugin,
    pub write: String,
}

/// The install, plugin by plugin, up to the first plugin with no built-in
/// source: for that one the other-language file is still removed, then the
/// install fails with the error.
pub struct InstallPlan {
    pub steps: Vec<InstallStep>,
    pub failure: Option<(String, String)>,
}

/// The first plugin with no built-in source.
pub open spec fn first_unknown(bases: Seq<Seq<char>>, lang: Lang) -> Option<int>
    decreases bases.len(),
{
    if bases.len() == 0 {
        None
    } else {
        match first_unknown(bases.drop_last(), lang) {
            Some(i) => Some(i),
            None => if embedded_spec(bases.last(), lang) is None {
                Some(bases.len() - 1)
            } else {
                None
            },
        }
    }
}

proof fn lemma_unknown_stable(bases: Seq<Seq<char>>, lang: Lang, i: int, from: int)
    requires
        0 <= from <= bases.len(),
        first_unknown(bases.take(from), lang) == Some(i),
    ensures
        first_unknown(bases, lang) == Some(i),
    decreases bases.len() - from,
{
    if from < bases.len() {
        assert(bases.take(from + 1).drop_last() =~= bases.take(from));
        lemma_unknown_stable(bases, lang, i, from + 1);
    } else {
        assert(bases.take(from) =~= bases);
    }
}

pub open spec fn step_ok(s: InstallStep, base: Seq<char>, lang: Lang) -> bool {
    &&& s.remove@ == plugin_file_spec(base, other_lang(lang))
    &&& embedded_spec(base, lang) == Some(s.plugin)
    &&& s.write@ == plugin_file_spec(base, lang)
}

/// The install plan for an entry's plugins in a language.
pub fn install_plan(entry: &FangameAllowEntry, lang: Lang) -> (r: InstallPlan)
    ensures
        ({
            let bases = plugin_bases_spec(*entry);
            let n = match first_unknown(bases, lang) {
                Some(i) => i,
                None => bases.len() as int,
            };
            &&& r.steps@.len() == n
            &&& forall|i: int| 0 <= i < n ==> step_ok(#[trigger] r.steps@[i], bases[i], lang)
            &&& match first_unknown(bases, lang) {
                Some(i) => r.failure matches Some(f) && f.0@ == plugin_file_spec(
                    bases[i],
                    other_lang(lang),
                ) && f.1@ == "plugin inconnu: "@ + bases[i] + "_"@ + lang_code(lang),
                None => r.failure is None,
            }
        }),
{
    let bases = plugin_bases(entry);
    let ghost bv = strings_view(bases@);
    let other = lang.other();
    let mut steps: Vec<InstallStep> = Vec::new();
    let mut i: usize = 0;
    proof {
        assert(bv.take(0) =~= Seq::<Seq<char>>::empty());
    }
    while i < bases.len()
        invariant
            i <= bases@.len(),
            bv == strings_view(bases@),
            bv == plugin_bases_spec(*entry),
            other == other_lang(lang),
            first_unknown(bv.take(i as int), lang) is None,
            steps@.len() == i,
            forall|j: int| 0 <= j < i ==> step_ok(#[trigger] steps@[j], bv[j], lang),
        decreases bases@.len() - i,
    {
        proof {
            assert(bv.take(i + 1).drop_last() =~= bv.take(i as int));
            assert(bv.take(i + 1).last() == bv[i as int]);
            assert(bv[i as int] == bases@[i as int]@);
        }
        let remove = plugin_file_name(bases[i].as_str(), other);
        match embedded_plugin(bases[i].as_str(), lang) {
            Ok(plugin) => {
                let write = plugin_file_name(bases[i].as_str(), lang);
                steps.push(InstallStep { remove, plugin, write });
            },
            Err(e) => {
                proof {
                    assert(first_unknown(bv.take(i + 1), lang) == Some(i as int));
                    lemma_unknown_stable(bv, lang, i as int, i + 1);
                }
                return InstallPlan { steps, failure: Some((remove, e)) };
            },
        }
        i += 1;
    }
    proof {
        assert(bv.take(i as int) =~= bv);
    }
    InstallPlan { steps, failure: None }
}

/// Items joined by `sep` (`[String]::join`).
pub open spec fn join_spec(items: Seq<Seq<char>>, sep: Seq<char>) -> Seq<char>
    decreases items.len(),
{
    if items.len() == 0 {
        Seq::empty()
    } else if items.len() == 1 {
        items[0]
    } else {
        join_spec(items.drop_last(), sep) + sep + items.last()
    }
}

pub fn join_strings(items: &Vec<String>, sep: &str) -> (r: String)
    ensures
        r@ == join_spec(strings_view(items@), sep@),
{
    let ghost iv = strings_view(items@);
    let s = chars_of(sep);
    let mut acc: Vec<char> = Vec::new();
    let mut k: usize = 0;
    proof {
        assert(iv.take(0) =~= Seq::<Seq<char>>::empty());
    }
    while k < items.len()
        invariant
            k <= items.len(),
            iv == strings_view(items@),
            s@ == sep@,
            acc@ == join_spec(iv.take(k as int), sep@),
        decreases items.len() - k,
    {
        proof {
            assert(iv.take(k + 1).drop_last() =~= iv.take(k as int));
            assert(iv.take(k + 1).last() == items@[k as int]@);
        }
        let item = chars_of(items[k].as_str());
        if k > 0 {
            acc = concat(&acc, &s);
        }
        acc = concat(&acc, &item);
        proof {
            if k == 0 {
                assert(acc@ =~= join_spec(iv.take(1), sep@));
            } else {
                assert(acc@ =~= join_spec(iv.take(k + 1), sep@));
            }
        }
        k += 1;
    }
    proof {
        assert(iv.take(items.len() as int) =~= iv);
    }
    string_of(&acc)
}

/// The report of a finished install.
pub fn install_message(lang: Lang, dest_display: &str, installed: &Vec<String>) -> (r: String)
    ensures
        r@ == "Install OK ("@ + lang_code(lang) + ") -> "@ + dest_display@ + " | "@ + join_spec(
            strings_view(installed@),
            ", "@,
        ),
{
    let a = concat(&chars_of("Install OK ("), &chars_of(lang.code().as_str()));
    let b = concat(&concat(&a, &chars_of(") -> ")), &chars_of(dest_display));
    let c = concat(&b, &chars_of(" | "));
    let j = join_strings(installed, ", ");
    string_of(&concat(&c, &chars_of(j.as_str())))
}

/// The error of an install whose files are not all in place afterwards.
pub fn install_incomplete_message(missing: &Vec<String>) -> (r: String)
    ensures
        r@ == "install incomplete: "@ + list_debug(strings_view(missing@)),
{
    let d = list_debug_string(missing);
    string_of(&concat(&chars_of("install incomplete: "), &chars_of(d.as_str())))
}

} // verus!

use vstd::prelude::*;

use crate::text::str_eq;

verus! {

/// One game-list entry: a tracked package and its target frame rate.
pub struct GameEntry {
    pub pkg: String,
    pub fps: u64,
}

/// One entry of the free-form configuration table.
pub struct ConfEntry {
    pub label: String,
    pub value: String,
}

/// The in-memory configuration document: a game list (package name to
/// target FPS) and a free-form label-to-value table. The caller that owns
/// the backing file parses it and rebuilds this value on every reload, so
/// readers always see one whole document.
pub struct Config {
    pub game_list: Vec<GameEntry>,
    pub conf: Vec<ConfEntry>,
}

/// First-match lookup of a package in the game list.
pub open spec fn lookup_game(s: Seq<GameEntry>, pkg: Seq<char>) -> Option<u64>
    decreases s.len(),
{
    if s.len() == 0 {
        None
    } else if s[0].pkg@ == pkg {
        Some(s[0].fps)
    } else {
        lookup_game(s.drop_first(), pkg)
    }
}

/// First-match lookup of a label in the configuration table.
pub open spec fn lookup_conf(s: Seq<ConfEntry>, label: Seq<char>) -> Option<Seq<char>>
    decreases s.len(),
{
    if s.len() == 0 {
        None
    } else if s[0].label@ == label {
        Some(s[0].value@)
    } else {
        lookup_conf(s.drop_first(), label)
    }
}

/// The views of a sequence of strings.
pub open spec fn views_of(s: Seq<String>) -> Seq<Seq<char>> {
    s.map_values(|x: String| x@)
}

/// The first foreground candidate that the game list tracks, with its
/// target FPS.
pub open spec fn cur_game_spec(games: Seq<GameEntry>, cands: Seq<Seq<char>>) -> Option<(Seq<char>, u64)>
    decreases cands.len(),
{
    if cands.len() == 0 {
        None
    } else {
        match lookup_game(games, cands[0]) {
            Some(f) => Some((cands[0], f)),
            None => cur_game_spec(games, cands.drop_first()),
        }
    }
}

/// A game found in a list of positive target rates has a positive rate.
proof fn lemma_lookup_game_pos(games: Seq<GameEntry>, pkg: Seq<char>)
    requires
        forall|i: int| 0 <= i < games.len() ==> (#[trigger] games[i]).fps >= 1,
        lookup_game(games, pkg) is Some,
    ensures
        lookup_game(games, pkg)->Some_0 >= 1,
    decreases games.len(),
{
    if games.len() > 0 && games[0].pkg@ != pkg {
        assert(forall|i: int|
            0 <= i < games.drop_first().len() ==> (#[trigger] games.drop_first()[i]).fps >= 1);
        lemma_lookup_game_pos(games.drop_first(), pkg);
    }
}

impl Config {
    /// Every target frame rate in the game list is a positive integer.
    pub open spec fn wf(self) -> bool {
        forall|i: int| 0 <= i < self.game_list@.len() ==> (#[trigger] self.game_list@[i]).fps >= 1
    }

    /// Builds a document from its two parsed sections.
    pub fn new(game_list: Vec<GameEntry>, conf: Vec<ConfEntry>) -> (r: Config)
        requires
            forall|i: int| 0 <= i < game_list@.len() ==> (#[trigger] game_list@[i]).fps >= 1,
        ensures
            r.game_list == game_list,
            r.conf == conf,
            r.wf(),
    {
        Config { game_list, conf }
    }

    /// Looks a package up in the game list.
    pub fn game_fps(&self, pkg: &str) -> (r: Option<u64>)
        ensures
            match r {
                Some(f) => lookup_game(self.game_list@, pkg@) == Some(f),
                None => lookup_game(self.game_list@, pkg@) is None,
            },
    {
        proof {
            assert(self.game_list@.skip(0) =~= self.game_list@);
        }
        let mut i: usize = 0;
        while i < self.game_list.len()
            invariant
                i <= self.game_list@.len(),
                lookup_game(self.game_list@, pkg@) == lookup_game(self.game_list@.skip(i as int), pkg@),
            decreases self.game_list@.len() - i,
        {
            proof {
                assert(self.game_list@.skip(i as int)[0] == self.game_list@[i as int]);
                assert(self.game_list@.skip(i as int).drop_first() =~= self.game_list@.skip(i + 1));
            }
            if str_eq(self.game_list[i].pkg.as_str(), pkg) {
                return Some(self.game_list[i].fps);
            }
            i = i + 1;
        }
        None
    }

    /// Resolves the current game: the first foreground candidate that the
    /// game list tracks, together with its target FPS. The caller supplies
    /// the candidate package names it obtained from the foreground
    /// detector; an empty or unmatched candidate list yields nothing.
    pub fn cur_game_fps(&self, candidates: &Vec<String>) -> (r: Option<(String, u64)>)
        ensures
            match r {
                Some(p) => cur_game_spec(self.game_list@, views_of(candidates@)) == Some((p.0@, p.1)),
                None => cur_game_spec(self.game_list@, views_of(candidates@)) is None,
            },
            self.wf() && r is Some ==> r->Some_0.1 >= 1,
    {
        let ghost cands = views_of(candidates@);
        proof {
            assert(cands.skip(0) =~= cands);
        }
        let mut i: usize = 0;
        while i < candidates.len()
            invariant
                i <= candidates@.len(),
                cands == views_of(candidates@),
                cur_game_spec(self.game_list@, cands) == cur_game_spec(
                    self.game_list@,
                    cands.skip(i as int),
                ),
            decreases candidates@.len() - i,
        {
            proof {
                assert(cands.skip(i as int)[0] == cands[i as int]);
                assert(cands[i as int] == candidates@[i as int]@);
                assert(cands.skip(i as int).drop_first() =~= cands.skip(i + 1));
            }
            match self.game_fps(candidates[i].as_str()) {
                Some(f) => {
                    proof {
                        if self.wf() {
                            lemma_lookup_game_pos(self.game_list@, candidates@[i as int]@);
                        }
                    }
                    return Some((candidates[i].clone(), f));
                },
                None => {
                    i = i + 1;
                },
            }
        }
        None
    }

    /// Looks a label up in the free-form configuration table.
    pub fn get_conf(&self, label: &str) -> (r: Option<String>)
        ensures
            match r {
                Some(v) => lookup_conf(self.conf@, label@) == Some(v@),
                None => lookup_conf(self.conf@, label@) is None,
            },
    {
        proof {
            assert(self.conf@.skip(0) =~= self.conf@);
        }
        let mut i: usize = 0;
        while i < self.conf.len()
            invariant
                i <= self.conf@.len(),
                lookup_conf(self.conf@, label@) == lookup_conf(self.conf@.skip(i as int), label@),
            decreases self.conf@.len() - i,
        {
            proof {
                assert(self.conf@.skip(i as int)[0] == self.conf@[i as int]);
                assert(self.conf@.skip(i as int).drop_first() =~= self.conf@.skip(i + 1));
            }
            if str_eq(self.conf[i].label.as_str(), label) {
                return Some(self.conf[i].value.clone());
            }
            i = i + 1;
        }
        None
    }
}

/// Once the watcher has swapped an edited document in, the very next
/// `current game` resolution is answered from it: whichever candidate
/// resolution picks — the first foreground candidate the game list
/// tracks, wherever it stands in the list — resolves to its target FPS
/// in the new document, with no restart and no residue of the old one.
pub proof fn lemma_current_game_reflects_edit(
    games: Seq<GameEntry>,
    cands: Seq<Seq<char>>,
    p: Seq<char>,
    f: u64,
    i: int,
)
    requires
        0 <= i < cands.len(),
        cands[i] == p,
        lookup_game(games, p) == Some(f),
        forall|j: int| 0 <= j < i ==> lookup_game(games, #[trigger] cands[j]) is None,
    ensures
        cur_game_spec(games, cands) == Some((p, f)),
    decreases i,
{
    if i > 0 {
        let rest = cands.drop_first();
        assert(lookup_game(games, cands[0]) is None);
        assert(rest[i - 1] == cands[i]);
        assert(forall|j: int| 0 <= j < i - 1 ==> #[trigger] rest[j] == cands[j + 1]);
        lemma_current_game_reflects_edit(games, rest, p, f, i - 1);
    }
}

} // verus!

use vstd::prelude::*;
use crate::errors::ProxyError;
use crate::strmap::StrMap;

verus! {

/// The game identifier that stands for every game without an entry of its
/// own.
pub open spec fn wildcard() -> Seq<char> {
    "_"@
}

/// Which manager owns a game under a `games` table: the game's own entry if
/// one exists, else the wildcard entry, else none.
pub open spec fn resolved_manager(games: Map<Seq<char>, Seq<char>>, game: Seq<char>) -> Option<
    Seq<char>,
> {
    if games.contains_key(game) {
        Some(games[game])
    } else if games.contains_key(wildcard()) {
        Some(games[wildcard()])
    } else {
        None
    }
}

/// The configuration store: which manager owns each game, how each manager
/// is launched, and over which channel a running manager listens.
pub struct Config {
    /// game identifier -> manager identifier; the key `"_"` is a wildcard.
    pub games: StrMap,
    /// manager identifier -> command-line template with a `%1` placeholder.
    pub managers: StrMap,
    /// manager identifier -> delivery channel name.
    pub pipes: StrMap,
}

impl Config {
    /// A store with three empty tables, the meaning of an absent
    /// configuration file.
    pub fn empty() -> (r: Config)
        ensures
            r.games@ == Map::<Seq<char>, Seq<char>>::empty(),
            r.managers@ == Map::<Seq<char>, Seq<char>>::empty(),
            r.pipes@ == Map::<Seq<char>, Seq<char>>::empty(),
    {
        Config { games: StrMap::new(), managers: StrMap::new(), pipes: StrMap::new() }
    }

    /// Assigns a game to a manager, replacing any earlier assignment.
    pub fn assign(&mut self, manager: &str, game: &str) -> (r: Result<(), ProxyError>)
        ensures
            r is Ok,
            final(self).games@ == old(self).games@.insert(game@, manager@),
            final(self).managers == old(self).managers,
            final(self).pipes == old(self).pipes,
    {
        self.games.insert(String::from_str(game), String::from_str(manager));
        Ok(())
    }

    /// Registers a manager's launch command template, replacing any earlier
    /// one.
    pub fn register(&mut self, manager: &str, command: &str) -> (r: Result<(), ProxyError>)
        ensures
            r is Ok,
            final(self).managers@ == old(self).managers@.insert(manager@, command@),
            final(self).games == old(self).games,
            final(self).pipes == old(self).pipes,
    {
        self.managers.insert(String::from_str(manager), String::from_str(command));
        Ok(())
    }

    /// Removes a manager's command template and its delivery channel.
    pub fn deregister(&mut self, manager: &str) -> (r: Result<(), ProxyError>)
        ensures
            r is Ok,
            final(self).managers@ == old(self).managers@.remove(manager@),
            final(self).pipes@ == old(self).pipes@.remove(manager@),
            final(self).games == old(self).games,
    {
        let key = String::from_str(manager);
        self.managers.remove(&key);
        self.pipes.remove(&key);
        Ok(())
    }

    /// Names the delivery channel of a registered manager. A channel entry
    /// is accepted only for a manager that exists in `managers`.
    pub fn register_pipe(&mut self, manager: &str, pipe: &str) -> (r: Result<(), ProxyError>)
        ensures
            old(self).managers@.contains_key(manager@) ==> r is Ok && final(self).pipes@ == old(
                self,
            ).pipes@.insert(manager@, pipe@),
            !old(self).managers@.contains_key(manager@) ==> r == Err::<(), ProxyError>(
                ProxyError::ManagerNotRegistered,
            ) && final(self).pipes == old(self).pipes,
            final(self).games == old(self).games,
            final(self).managers == old(self).managers,
    {
        let key = String::from_str(manager);
        if !self.managers.contains_key(&key) {
            return Err(ProxyError::ManagerNotRegistered);
        }
        self.pipes.insert(key, String::from_str(pipe));
        Ok(())
    }

    /// Decides which manager owns a game: the game's own entry if present,
    /// else the wildcard entry, else `NoManagerForGame`.
    pub fn resolve(&self, game: &str) -> (r: Result<String, ProxyError>)
        ensures
            match resolved_manager(self.games@, game@) {
                Some(m) => r matches Ok(s) && s@ == m,
                None => r matches Err(e) && (e matches ProxyError::NoManagerForGame(g) && g@
                    == game@),
            },
    {
        let key = String::from_str(game);
        match self.games.get(&key) {
            Some(m) => Ok(m),
            None => {
                proof {
                    reveal_strlit("_");
                }
                match self.games.get(&String::from_str("_")) {
                    Some(m) => Ok(m),
                    None => Err(ProxyError::NoManagerForGame(key)),
                }
            },
        }
    }
}

/// Law: resolution is total and deterministic over the `games` table, and
/// the wildcard entry decides exactly when the game has no entry of its own:
/// a game with its own entry resolves to it, any other game resolves to the
/// wildcard entry if one exists, and resolution fails otherwise.
pub proof fn lemma_resolve_total(games: Map<Seq<char>, Seq<char>>, game: Seq<char>)
    ensures
        games.contains_key(game) ==> resolved_manager(games, game) == Some(games[game]),
        !games.contains_key(game) && games.contains_key(wildcard()) ==> resolved_manager(
            games,
            game,
        ) == Some(games[wildcard()]),
        resolved_manager(games, game) is None <==> !games.contains_key(game)
            && !games.contains_key(wildcard()),
{
}

} // verus!

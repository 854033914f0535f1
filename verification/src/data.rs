//! The state store: per-forge cursor and the pending-write buffer.
//!
//! The store owns the last processed cursor for each forge and the records
//! discovered since the last flush, keyed by repository name with
//! last-write-wins semantics. It prepares the durable writes (output rows,
//! then checkpoint body) as plain byte values; performing the file I/O is
//! the caller's job, in the stated order.

use vstd::prelude::*;

use crate::checkpoint;
use crate::config::Config;
use vstd::pervasive::VecAdditionalExecFns;
use vstd::string::StringExecFns;

verus! {

/// The forges this system can crawl; used as a namespace key for the
/// per-forge checkpoint entry and output file.
#[derive(Debug, Clone, Copy, PartialEq, Eq, Structural)]
pub enum Forge {
    Github,
}

/// One discovered repository: the forge-assigned identifier, the full
/// name, and whether the two marker files were found in its tree.
#[derive(Debug, Clone)]
pub struct Repo {
    pub id: String,
    pub name: String,
    pub has_cargo_toml: bool,
    pub has_cargo_lock: bool,
}

pub struct RepoView {
    pub id: Seq<char>,
    pub name: Seq<char>,
    pub has_cargo_toml: bool,
    pub has_cargo_lock: bool,
}

impl View for Repo {
    type V = RepoView;

    open spec fn view(&self) -> RepoView {
        RepoView {
            id: self.id@,
            name: self.name@,
            has_cargo_toml: self.has_cargo_toml,
            has_cargo_lock: self.has_cargo_lock,
        }
    }
}

/// No two buffered records share a name.
pub open spec fn unique_names(buf: Seq<Repo>) -> bool {
    forall|i: int, j: int| 0 <= i < j < buf.len() ==> buf[i]@.name != buf[j]@.name
}

pub open spec fn has_name(buf: Seq<Repo>, name: Seq<char>) -> bool {
    exists|i: int| 0 <= i < buf.len() && buf[i]@.name == name
}

/// How one `store_repo` call relates the buffer before and after: the
/// record replaces its namesake if one is buffered, and is appended
/// otherwise.
pub open spec fn stores(pre: Seq<Repo>, post: Seq<Repo>, repo: Repo) -> bool {
    if has_name(pre, repo@.name) {
        exists|i: int|
            0 <= i < pre.len() && pre[i]@.name == repo@.name && post == pre.update(i, repo)
    } else {
        post == pre.push(repo)
    }
}

/// A store keeps names unique, leaves the new record as the only one under
/// its name, and never touches records under other names.
pub proof fn lemma_stores_props(pre: Seq<Repo>, post: Seq<Repo>, repo: Repo)
    requires
        unique_names(pre),
        stores(pre, post, repo),
    ensures
        unique_names(post),
        exists|i: int| 0 <= i < post.len() && post[i] == repo,
        forall|i: int| 0 <= i < post.len() && post[i]@.name == repo@.name ==> post[i] == repo,
        forall|i: int|
            0 <= i < post.len() && post[i]@.name != repo@.name ==> 0 <= i < pre.len() && post[i]
                == pre[i],
{
    if has_name(pre, repo@.name) {
        let i0 = choose|i: int|
            0 <= i < pre.len() && pre[i]@.name == repo@.name && post == pre.update(i, repo);
        assert(post[i0] == repo);
        assert forall|i: int|
            0 <= i < post.len() && post[i]@.name == repo@.name implies post[i] == repo by {
            if i != i0 {
                assert(post[i] == pre[i]);
            }
        }
    } else {
        assert(post[pre.len() as int] == repo);
    }
}

/// Last-write-wins: after two stores under the same name, the buffer holds
/// exactly one record for that name, the one stored second, and all other
/// records are untouched.
pub proof fn lemma_last_write_wins(
    buf0: Seq<Repo>,
    buf1: Seq<Repo>,
    buf2: Seq<Repo>,
    r1: Repo,
    r2: Repo,
)
    requires
        unique_names(buf0),
        stores(buf0, buf1, r1),
        stores(buf1, buf2, r2),
        r1@.name == r2@.name,
    ensures
        unique_names(buf2),
        exists|i: int| 0 <= i < buf2.len() && buf2[i] == r2,
        forall|i: int| 0 <= i < buf2.len() && buf2[i]@.name == r2@.name ==> buf2[i] == r2,
{
    lemma_stores_props(buf0, buf1, r1);
    lemma_stores_props(buf1, buf2, r2);
}

/// Everything the caller must persist after a cursor advance, in order:
/// first append `rows` to the forge's output file, then write `checkpoint`
/// as the whole checkpoint file. Appending first guarantees the checkpoint
/// never claims progress the output file does not reflect.
pub struct PersistPlan {
    pub rows: Vec<Repo>,
    pub checkpoint: Vec<u8>,
}

#[derive(Debug, Clone, Copy, PartialEq, Eq, Structural)]
pub enum StateError {
    MalformedCheckpoint,
}

/// In-memory home of the cursor and the pending-write buffer.
pub struct Data {
    data_dir: String,
    last_id_github: usize,
    buffer_github: Vec<Repo>,
}

impl Data {
    pub open spec fn wf(&self) -> bool {
        unique_names(self.buffer_of(Forge::Github))
    }

    pub closed spec fn cursor_of(&self, forge: Forge) -> usize {
        match forge {
            Forge::Github => self.last_id_github,
        }
    }

    pub closed spec fn buffer_of(&self, forge: Forge) -> Seq<Repo> {
        match forge {
            Forge::Github => self.buffer_github@,
        }
    }

    pub closed spec fn dir(&self) -> Seq<char> {
        self.data_dir@
    }

    /// Builds the store from the checkpoint file's bytes, if the file
    /// existed. An absent checkpoint means a fresh crawl from cursor zero;
    /// unreadable checkpoint content is a startup error.
    pub fn new(config: &Config, checkpoint_bytes: Option<&[u8]>) -> (r: Result<Data, StateError>)
        ensures
            match r {
                Ok(d) => {
                    &&& d.wf()
                    &&& d.buffer_of(Forge::Github).len() == 0
                    &&& d.dir() == config.data_dir@
                    &&& match checkpoint_bytes {
                        None => d.cursor_of(Forge::Github) == 0,
                        Some(b) => b@ == checkpoint::state_json(
                            d.cursor_of(Forge::Github) as nat,
                        ),
                    }
                },
                Err(e) => {
                    &&& e == StateError::MalformedCheckpoint
                    &&& (checkpoint_bytes matches Some(b) && forall|n: usize|
                        b@ != checkpoint::state_json(n as nat))
                },
            },
    {
        let last: usize = match checkpoint_bytes {
            None => 0,
            Some(b) => match checkpoint::parse_state(b) {
                Some(v) => v,
                None => {
                    return Err(StateError::MalformedCheckpoint);
                },
            },
        };
        Ok(Data { data_dir: config.data_dir.clone(), last_id_github: last, buffer_github: Vec::new() })
    }

    /// Name of the checkpoint file under the data directory.
    pub fn state_path(&self) -> (p: String)
        ensures
            p@ == self.dir() + "/state.json"@,
    {
        let mut p = self.data_dir.clone();
        p.append("/state.json");
        p
    }

    /// Name of the forge's output file under the data directory.
    pub fn csv_path(&self, forge: Forge) -> (p: String)
        ensures
            p@ == self.dir() + "/github.csv"@,
    {
        match forge {
            Forge::Github => {
                let mut p = self.data_dir.clone();
                p.append("/github.csv");
                p
            },
        }
    }

    /// The last persisted cursor, or zero if there was none.
    pub fn get_last_id(&self, forge: Forge) -> (n: usize)
        ensures
            n == self.cursor_of(forge),
    {
        match forge {
            Forge::Github => self.last_id_github,
        }
    }

    /// Buffers a discovered record under its name; the last record stored
    /// for a name before a flush wins. No file I/O happens here.
    pub fn store_repo(&mut self, forge: Forge, repo: Repo)
        requires
            old(self).wf(),
        ensures
            final(self).wf(),
            stores(old(self).buffer_of(forge), final(self).buffer_of(forge), repo),
            final(self).cursor_of(forge) == old(self).cursor_of(forge),
            final(self).dir() == old(self).dir(),
    {
        match forge {
            Forge::Github => {
                let ghost pre = self.buffer_github@;
                proof {
                    assert(unique_names(pre));
                }
                let mut i: usize = 0;
                while i < self.buffer_github.len()
                    invariant
                        *self == *old(self),
                        pre == self.buffer_github@,
                        unique_names(pre),
                        i <= pre.len(),
                        forall|k: int| 0 <= k < i ==> pre[k]@.name != repo@.name,
                    decreases pre.len() - i,
                {
                    let same = self.buffer_github[i].name == repo.name;
                    if same {
                        self.buffer_github.set(i, repo);
                        proof {
                            assert(stores(pre, self.buffer_github@, repo));
                            lemma_stores_props(pre, self.buffer_github@, repo);
                        }
                        return ;
                    }
                    i = i + 1;
                }
                proof {
                    assert(!has_name(pre, repo@.name));
                }
                self.buffer_github.push(repo);
                proof {
                    lemma_stores_props(pre, self.buffer_github@, repo);
                }
            },
        }
    }

    /// Advances the cursor and empties the buffer, handing back everything
    /// that must now be persisted. Cursor values passed here are
    /// non-decreasing per forge, so the persisted cursor never moves
    /// backwards.
    pub fn set_last_id(&mut self, forge: Forge, n: usize) -> (plan: PersistPlan)
        requires
            old(self).wf(),
            n >= old(self).cursor_of(forge),
        ensures
            final(self).wf(),
            final(self).cursor_of(forge) == n,
            final(self).buffer_of(forge).len() == 0,
            final(self).dir() == old(self).dir(),
            plan.rows@ == old(self).buffer_of(forge),
            plan.checkpoint@ == checkpoint::state_json(n as nat),
    {
        match forge {
            Forge::Github => {
                self.last_id_github = n;
                let mut rows: Vec<Repo> = Vec::new();
                core::mem::swap(&mut rows, &mut self.buffer_github);
                let checkpoint_bytes = checkpoint::render_state(n);
                PersistPlan { rows, checkpoint: checkpoint_bytes }
            },
        }
    }
}

} // verus!

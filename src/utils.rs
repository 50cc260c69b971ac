use vstd::prelude::*;

verus! {

/// File name of the profile store, inside the data folder.
pub const DATABASE: &'static str = "data.sqlite";

/// File name of the single-instance lock, inside the data folder.
pub const LOCK_FILE: &'static str = "lock.data";

/// A name that `Path::join` appends as one component: not empty, with no
/// separator, root or drive prefix in it.
pub open spec fn is_plain_file_name(name: Seq<char>) -> bool {
    &&& name.len() > 0
    &&& forall|i: int| 0 <= i < name.len() ==> #[trigger] name[i] != '/' && name[i] != '\\' && name[i] != ':'
}

/// A folder path that every platform reads alike: no `\` and no `:` in it, so
/// no drive or verbatim prefix, and `/` as its only separator.
pub open spec fn is_plain_dir(dir: Seq<char>) -> bool {
    forall|i: int| 0 <= i < dir.len() ==> #[trigger] dir[i] != '\\' && dir[i] != ':'
}

pub open spec fn is_separator(c: char) -> bool {
    c == '/' || c == '\\'
}

/// Whether joining a name to `dir` puts a separator between the two: unless
/// `dir` is empty or already ends in `/`.
pub open spec fn needs_separator(dir: Seq<char>) -> bool {
    dir.len() > 0 && dir.last() != '/'
}

/// `path` is `name` inside the folder `dir`: `dir`, one separator where
/// `dir` needs one, then `name`.
pub open spec fn is_joined(path: Seq<char>, dir: Seq<char>, name: Seq<char>) -> bool {
    if needs_separator(dir) {
        &&& path.len() == dir.len() + 1 + name.len()
        &&& path.subrange(0, dir.len() as int) == dir
        &&& is_separator(path[dir.len() as int])
        &&& path.subrange(dir.len() + 1int, path.len() as int) == name
    } else {
        path == dir + name
    }
}

/// The text of `Path::new(dir).join(name)`.
pub uninterp spec fn joined_path(dir: Seq<char>, name: Seq<char>) -> Seq<char>;

/// Relies on `std::path::Path::join`: a relative name is pushed onto the
/// folder, with the platform's separator only where the folder does not
/// already end in a separator. Over a folder without `\` or `:` nothing else
/// is rewritten. Both arguments are UTF-8, so the text of the result is exact.
#[verifier::external_body]
fn join_file_name(dir: &str, name: &str) -> (r: String)
    requires
        is_plain_file_name(name@),
    ensures
        r@ == joined_path(dir@, name@),
        is_plain_dir(dir@) ==> is_joined(r@, dir@, name@),
{
    std::path::Path::new(dir).join(name).to_string_lossy().into_owned()
}

/// The path of the profile store inside the data folder `dir`.
pub fn get_database_path(dir: &str) -> (r: String)
    ensures
        r@ == joined_path(dir@, DATABASE@),
        is_plain_dir(dir@) ==> is_joined(r@, dir@, DATABASE@),
{
    proof {
        reveal_strlit("data.sqlite");
    }
    join_file_name(dir, DATABASE)
}

/// The path of the single-instance lock file inside the data folder `dir`.
pub fn get_lockfile_path(dir: &str) -> (r: String)
    ensures
        r@ == joined_path(dir@, LOCK_FILE@),
        is_plain_dir(dir@) ==> is_joined(r@, dir@, LOCK_FILE@),
{
    proof {
        reveal_strlit("lock.data");
    }
    join_file_name(dir, LOCK_FILE)
}

/// The store and the lock file are two different files side by side in the
/// data folder: each is the folder followed by its own file name.
pub proof fn lemma_data_files_side_by_side(dir: Seq<char>, db: Seq<char>, lock: Seq<char>)
    requires
        is_plain_dir(dir),
        is_joined(db, dir, DATABASE@),
        is_joined(lock, dir, LOCK_FILE@),
    ensures
        db != lock,
        db.subrange(0, dir.len() as int) == dir,
        lock.subrange(0, dir.len() as int) == dir,
        db.subrange(db.len() - DATABASE@.len(), db.len() as int) == DATABASE@,
        lock.subrange(lock.len() - LOCK_FILE@.len(), lock.len() as int) == LOCK_FILE@,
{
    reveal_strlit("data.sqlite");
    reveal_strlit("lock.data");
    if needs_separator(dir) {
        let d = db.subrange(dir.len() + 1int, db.len() as int);
        let l = lock.subrange(dir.len() + 1int, lock.len() as int);
        assert(d[d.len() - 1] == db[db.len() - 1]);
        assert(l[l.len() - 1] == lock[lock.len() - 1]);
        assert(DATABASE@[DATABASE@.len() - 1] == 'e');
        assert(LOCK_FILE@[LOCK_FILE@.len() - 1] == 'a');
    } else {
        assert(db[db.len() - 1] == (dir + DATABASE@)[db.len() - 1]);
        assert(lock[lock.len() - 1] == (dir + LOCK_FILE@)[lock.len() - 1]);
        assert((dir + DATABASE@).subrange(0, dir.len() as int) =~= dir);
        assert((dir + LOCK_FILE@).subrange(0, dir.len() as int) =~= dir);
        assert((dir + DATABASE@).subrange(db.len() - DATABASE@.len(), db.len() as int) =~= DATABASE@);
        assert((dir + LOCK_FILE@).subrange(lock.len() - LOCK_FILE@.len(), lock.len() as int) =~= LOCK_FILE@);
    }
}

} // verus!

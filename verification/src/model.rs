//! A mathematical model of the watched directory, for stating what the
//! planned moves do to it.
//!
//! The filesystem is modelled as a map from the paths of the regular
//! files to their contents, together with a set of existing directory
//! paths. The engine never performs a move itself; these definitions say
//! what the one rename it plans does to such a model, and the lemmas are
//! the laws the relocation obeys.

use vstd::prelude::*;

use crate::path_text::{
    extension_of, file_name_of, has_extension, joined, lemma_file_name_of_joined,
};
use crate::watch::destination_of;

verus! {

/// The files after the planned rename of `src` to `dest`: `src` is gone,
/// and its content now stands at `dest`, replacing whatever stood there
/// (a name collision overwrites; rename semantics).
pub open spec fn move_applied(
    files: Map<Seq<char>, Seq<char>>,
    src: Seq<char>,
    dest: Seq<char>,
) -> Map<Seq<char>, Seq<char>> {
    files.remove(src).insert(dest, files[src])
}

/// The directories after the bucket `dir` was ensured to exist.
pub open spec fn dir_ensured(dirs: Set<Seq<char>>, dir: Seq<char>) -> Set<Seq<char>> {
    dirs.insert(dir)
}

/// Ensuring a directory that already exists changes nothing: it never
/// errors and never yields a second copy of the directory.
pub proof fn lemma_ensure_dir_idempotent(dirs: Set<Seq<char>>, dir: Seq<char>)
    requires
        dirs.contains(dir),
    ensures
        dir_ensured(dirs, dir) == dirs,
{
    assert(dir_ensured(dirs, dir) =~= dirs);
}

/// The original path of a file `name` lying directly in the target
/// directory.
pub open spec fn source_path(target: Seq<char>, name: Seq<char>) -> Seq<char> {
    joined(target, name)
}

/// The path a file `name` is relocated to: `target/<extension>/<name>`.
pub open spec fn bucketed_path(target: Seq<char>, name: Seq<char>) -> Seq<char> {
    joined(joined(target, extension_of(name)), name)
}

/// A regular file `name` with an extension, lying directly in the target
/// directory, is relocated by its planned move to
/// `target/<extension>/<name>`: after the move it stands there, no
/// longer stands at its original path, keeps its content, and no other
/// file is touched.
pub proof fn lemma_move_relocates(
    files: Map<Seq<char>, Seq<char>>,
    target: Seq<char>,
    name: Seq<char>,
)
    requires
        !name.contains('/'),
        has_extension(name),
        files.dom().contains(joined(target, name)),
    ensures
        ({
            let src = joined(target, name);
            let dest = destination_of(target, src);
            let after = move_applied(files, src, dest);
            &&& dest == bucketed_path(target, name)
            &&& dest != src
            &&& after.dom().contains(dest)
            &&& !after.dom().contains(src)
            &&& after[dest] == files[src]
            &&& forall|p: Seq<char>|
                p != src && p != dest ==> (after.dom().contains(p) <==> files.dom().contains(p))
            &&& forall|p: Seq<char>|
                p != src && p != dest && files.dom().contains(p) ==> after[p] == files[p]
        }),
{
    let src = joined(target, name);
    let dest = destination_of(target, src);
    lemma_file_name_of_joined(target, name);
    assert(file_name_of(src) == name);
    assert(dest == bucketed_path(target, name));
    assert(dest.len() == target.len() + 1 + extension_of(name).len() + 1 + name.len());
    assert(src.len() == target.len() + 1 + name.len());
    assert(extension_of(name).len() > 0);
    assert(dest != src);
}

/// Whether `p` is the original or the relocated path of the file `name`.
pub open spec fn touched_by(target: Seq<char>, name: Seq<char>, p: Seq<char>) -> bool {
    p == source_path(target, name) || p == bucketed_path(target, name)
}

/// Whether `p` is the original or the relocated path of any of the
/// files `names`.
pub open spec fn touches(target: Seq<char>, names: Seq<Seq<char>>, p: Seq<char>) -> bool {
    exists|i: int| 0 <= i < names.len() && #[trigger] touched_by(target, names[i], p)
}

/// The files after the planned moves of all of `names`, applied in
/// order.
pub open spec fn moves_applied(
    files: Map<Seq<char>, Seq<char>>,
    target: Seq<char>,
    names: Seq<Seq<char>>,
) -> Map<Seq<char>, Seq<char>>
    decreases names.len(),
{
    if names.len() == 0 {
        files
    } else {
        let name = names.last();
        move_applied(
            moves_applied(files, target, names.drop_last()),
            source_path(target, name),
            bucketed_path(target, name),
        )
    }
}

/// What a backload pass finds: the candidates are distinct regular
/// files lying directly in the target directory, each with an
/// extension.
pub open spec fn backload_candidates_ok(
    files: Map<Seq<char>, Seq<char>>,
    target: Seq<char>,
    names: Seq<Seq<char>>,
) -> bool {
    &&& forall|i: int| 0 <= i < names.len() ==> !(#[trigger] names[i]).contains('/')
    &&& forall|i: int| 0 <= i < names.len() ==> has_extension(#[trigger] names[i])
    &&& forall|i: int|
        0 <= i < names.len() ==> files.dom().contains(source_path(target, #[trigger] names[i]))
    &&& forall|i: int, j: int| 0 <= i < j < names.len() ==> names[i] != names[j]
}

/// Two distinct file names never plan the same path, and an original
/// path never coincides with a relocated one: a relocated path carries
/// a separator after the target that an original lacks.
proof fn lemma_planned_paths_distinct(target: Seq<char>, a: Seq<char>, b: Seq<char>)
    requires
        !a.contains('/'),
        !b.contains('/'),
        has_extension(a),
        has_extension(b),
    ensures
        a != b ==> source_path(target, a) != source_path(target, b),
        a != b ==> bucketed_path(target, a) != bucketed_path(target, b),
        source_path(target, a) != bucketed_path(target, b),
{
    lemma_file_name_of_joined(target, a);
    lemma_file_name_of_joined(target, b);
    lemma_file_name_of_joined(joined(target, extension_of(a)), a);
    lemma_file_name_of_joined(joined(target, extension_of(b)), b);
    if source_path(target, a) == bucketed_path(target, b) {
        assert(a == b);
        assert(source_path(target, a).len() == target.len() + 1 + a.len());
        assert(bucketed_path(target, b).len() == target.len() + 1 + extension_of(b).len() + 1
            + b.len());
        assert(extension_of(b).len() > 0);
        assert(false);
    }
}

/// The backload law: after the planned moves of all candidates are
/// applied in order, every candidate `name` stands at
/// `target/<extension>/<name>` with its content kept, none stands at
/// its original path any more, and every path no candidate's move
/// touches is exactly as it was.
pub proof fn lemma_backload_relocates_all(
    files: Map<Seq<char>, Seq<char>>,
    target: Seq<char>,
    names: Seq<Seq<char>>,
)
    requires
        backload_candidates_ok(files, target, names),
    ensures
        ({
            let after = moves_applied(files, target, names);
            &&& forall|i: int|
                0 <= i < names.len() ==> after.dom().contains(
                    bucketed_path(target, #[trigger] names[i]),
                )
            &&& forall|i: int|
                0 <= i < names.len() ==> !after.dom().contains(
                    source_path(target, #[trigger] names[i]),
                )
            &&& forall|i: int|
                0 <= i < names.len() ==> after[bucketed_path(target, #[trigger] names[i])]
                    == files[source_path(target, names[i])]
            &&& forall|p: Seq<char>|
                !touches(target, names, p) ==> (after.dom().contains(p)
                    <==> files.dom().contains(p))
            &&& forall|p: Seq<char>|
                !touches(target, names, p) && files.dom().contains(p) ==> after[p] == files[p]
        }),
    decreases names.len(),
{
    if names.len() == 0 {
    } else {
        let prefix = names.drop_last();
        let name = names.last();
        let n = prefix.len() as int;
        assert(forall|i: int| 0 <= i < n ==> prefix[i] == names[i]);
        lemma_backload_relocates_all(files, target, prefix);
        let mid = moves_applied(files, target, prefix);
        let src = source_path(target, name);
        let dest = bucketed_path(target, name);
        let after = moves_applied(files, target, names);
        assert(after == move_applied(mid, src, dest));

        // The last candidate's own paths are untouched by the earlier
        // moves, so its file still sits at its original path.
        assert(!touches(target, prefix, src)) by {
            if touches(target, prefix, src) {
                let i = choose|i: int|
                    0 <= i < prefix.len() && #[trigger] touched_by(target, prefix[i], src);
                lemma_planned_paths_distinct(target, name, prefix[i]);
                lemma_planned_paths_distinct(target, prefix[i], name);
            }
        }
        assert(!touches(target, prefix, dest)) by {
            if touches(target, prefix, dest) {
                let i = choose|i: int|
                    0 <= i < prefix.len() && #[trigger] touched_by(target, prefix[i], dest);
                lemma_planned_paths_distinct(target, name, prefix[i]);
                lemma_planned_paths_distinct(target, prefix[i], name);
            }
        }
        assert(mid.dom().contains(src));
        assert(mid[src] == files[src]);
        lemma_planned_paths_distinct(target, name, name);
        assert(src != dest);

        // Earlier candidates are unaffected by the last move.
        assert(forall|i: int|
            0 <= i < n ==> {
                let d = bucketed_path(target, #[trigger] names[i]);
                d != src && d != dest
            }) by {
            assert forall|i: int| 0 <= i < n implies {
                let d = bucketed_path(target, #[trigger] names[i]);
                d != src && d != dest
            } by {
                lemma_planned_paths_distinct(target, name, names[i]);
                lemma_planned_paths_distinct(target, names[i], name);
            }
        }
        assert(forall|i: int|
            0 <= i < n ==> {
                let s = source_path(target, #[trigger] names[i]);
                s != dest
            }) by {
            assert forall|i: int| 0 <= i < n implies {
                let s = source_path(target, #[trigger] names[i]);
                s != dest
            } by {
                lemma_planned_paths_distinct(target, names[i], name);
            }
        }

        // A path outside every candidate's plan was untouched before
        // the last move and stays untouched by it.
        assert(forall|p: Seq<char>|
            !touches(target, names, p) ==> !touches(target, prefix, p) && p != src && p != dest)
            by {
            assert forall|p: Seq<char>| !touches(target, names, p) implies !touches(
                target,
                prefix,
                p,
            ) && p != src && p != dest by {
                assert(touched_by(target, names[names.len() - 1], p) ==> touches(target, names, p));
                if touches(target, prefix, p) {
                    let i = choose|i: int|
                        0 <= i < prefix.len() && #[trigger] touched_by(target, prefix[i], p);
                    assert(touched_by(target, names[i], p));
                }
            }
        }
    }
}

/// When two files of the same name and extension are moved to the same
/// destination one after the other, the later move wins: exactly the
/// second file's content stands at the destination afterwards, and the
/// second source is gone.
pub proof fn lemma_second_move_overwrites(
    files: Map<Seq<char>, Seq<char>>,
    src: Seq<char>,
    dest: Seq<char>,
)
    requires
        files.dom().contains(src),
        files.dom().contains(dest),
        src != dest,
    ensures
        move_applied(files, src, dest).dom().contains(dest),
        move_applied(files, src, dest)[dest] == files[src],
        !move_applied(files, src, dest).dom().contains(src),
{
}

} // verus!

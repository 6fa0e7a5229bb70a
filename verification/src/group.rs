//! Grouping compiled sources into a table.
//!
//! A table holds the compiled sources by weight and, within a weight, by
//! size. The groups stand in the order in which their weights first come
//! among the sources, the files of a group in the order of the sources. A
//! weight has one group however many sources are of it; a second source of
//! one weight and size is a fault.

use vstd::prelude::*;
use crate::compile::{
    compile_file, compiled, file_ok, lemma_compiled_ok, CompileError, CompiledFile, Failure,
    FileModel, SourceFont,
};
use crate::metadata::{face_of, get_face, weight_of, ParseError};
use crate::types::FontSize;

verus! {

/// The sources of one weight, compiled, in the order of the sources.
pub struct WeightGroup {
    pub weight: String,
    pub files: Vec<CompiledFile>,
}

/// A `WeightGroup` as a ghost value.
pub struct GroupModel {
    pub weight: Seq<char>,
    pub files: Seq<FileModel>,
}

/// The compiled sources as ghost values.
pub open spec fn file_views(files: Seq<CompiledFile>) -> Seq<FileModel> {
    files.map_values(|f: CompiledFile| f@)
}

impl View for WeightGroup {
    type V = GroupModel;

    open spec fn view(&self) -> GroupModel {
        GroupModel { weight: self.weight@, files: file_views(self.files@) }
    }
}

/// The groups as ghost values.
pub open spec fn group_views(groups: Seq<WeightGroup>) -> Seq<GroupModel> {
    groups.map_values(|g: WeightGroup| g@)
}

/// The place of the first group of the given weight.
pub open spec fn group_index(groups: Seq<GroupModel>, weight: Seq<char>) -> Option<int>
    decreases groups.len(),
{
    if groups.len() == 0 {
        None
    } else if groups[0].weight == weight {
        Some(0)
    } else {
        match group_index(groups.drop_first(), weight) {
            Some(i) => Some(i + 1),
            None => None,
        }
    }
}

/// One of the compiled sources is of the given size.
pub open spec fn has_size(files: Seq<FileModel>, size: FontSize) -> bool {
    exists|i: int| 0 <= i < files.len() && (#[trigger] files[i]).size == size
}

/// The groups with one more compiled source: it goes to the end of the
/// group of its weight, or into a new group at the end where there is no
/// such group. A source of a weight and size that are already there is a
/// fault.
pub open spec fn with_file(groups: Seq<GroupModel>, file: FileModel) -> Result<
    Seq<GroupModel>,
    Failure,
> {
    match group_index(groups, file.weight) {
        None => Ok(groups.push(GroupModel { weight: file.weight, files: seq![file] })),
        Some(i) => if has_size(groups[i].files, file.size) {
            Err(Failure::DuplicateSize { file: file.file, weight: file.weight, size: file.size })
        } else {
            Ok(
                groups.update(
                    i,
                    GroupModel { weight: file.weight, files: groups[i].files.push(file) },
                ),
            )
        },
    }
}

/// The groups after the sources from position `from` on have been compiled
/// and added in turn, or the first fault met on the way.
pub open spec fn grouped_from(
    sources: Seq<SourceFont>,
    face: Seq<char>,
    from: int,
    groups: Seq<GroupModel>,
) -> Result<Seq<GroupModel>, Failure>
    decreases sources.len() - from,
{
    if from < 0 || from >= sources.len() {
        Ok(groups)
    } else {
        match compiled(sources[from], from, face) {
            Err(fault) => Err(fault),
            Ok(file) => match with_file(groups, file) {
                Err(fault) => Err(fault),
                Ok(next) => grouped_from(sources, face, from + 1, next),
            },
        }
    }
}

/// The table that the sources compile to: their compiled files grouped by
/// weight, the groups in the order in which their weights first come, or
/// the first fault. The face of the first source is the face of the table.
pub open spec fn table_of(sources: Seq<SourceFont>) -> Result<Seq<GroupModel>, Failure> {
    if sources.len() == 0 {
        Err(Failure::NoSources)
    } else if sources.len() > u32::MAX {
        Err(Failure::TooManySources)
    } else {
        match face_of(sources[0].name@) {
            Err(cause) => Err(Failure::Parse { file: 0, cause }),
            Ok(face) => grouped_from(sources, face, 0, Seq::<GroupModel>::empty()),
        }
    }
}

/// The files are sound, no two are of one size, and there are at most
/// `bound` of them.
pub open spec fn files_ok(files: Seq<FileModel>, bound: int) -> bool {
    &&& files.len() <= bound
    &&& forall|i: int| 0 <= i < files.len() ==> file_ok(#[trigger] files[i])
    &&& forall|i: int, j: int| 0 <= i < j < files.len() ==> files[i].size != files[j].size
}

/// A group is sound: its files are sound and of the group's weight, no two
/// are of one size, and there are at most `bound` of them.
pub open spec fn group_ok(group: GroupModel, bound: int) -> bool {
    &&& files_ok(group.files, bound)
    &&& forall|i: int|
        0 <= i < group.files.len() ==> (#[trigger] group.files[i]).weight == group.weight
}

/// The groups are sound, there are at most `bound` of them, and no two are
/// of one weight.
pub open spec fn groups_ok(groups: Seq<GroupModel>, bound: int) -> bool {
    &&& groups.len() <= bound
    &&& forall|i: int| 0 <= i < groups.len() ==> group_ok(#[trigger] groups[i], bound)
    &&& forall|i: int, j: int| 0 <= i < j < groups.len() ==> groups[i].weight != groups[j].weight
}

/// A table is sound: each weight has one group, each size of a weight one
/// file, each character of a file one glyph of the right length, and no
/// level has more entries than a `u32` can count.
pub open spec fn table_ok(groups: Seq<GroupModel>) -> bool {
    groups_ok(groups, u32::MAX as int)
}

/// What `group_index` finds: a group of the weight, or that there is none.
pub proof fn lemma_group_index(groups: Seq<GroupModel>, weight: Seq<char>)
    ensures
        match group_index(groups, weight) {
            Some(i) => 0 <= i < groups.len() && groups[i].weight == weight && forall|j: int|
                0 <= j < i ==> (#[trigger] groups[j]).weight != weight,
            None => forall|j: int|
                0 <= j < groups.len() ==> (#[trigger] groups[j]).weight != weight,
        },
    decreases groups.len(),
{
    if groups.len() > 0 && groups[0].weight != weight {
        let rest = groups.drop_first();
        lemma_group_index(rest, weight);
        match group_index(rest, weight) {
            Some(i) => {
                assert(rest[i] == groups[i + 1]);
                assert forall|j: int| 0 <= j < i + 1 implies (#[trigger] groups[j]).weight
                    != weight by {
                    if j > 0 {
                        assert(rest[j - 1] == groups[j]);
                    }
                }
            },
            None => {
                assert forall|j: int| 0 <= j < groups.len() implies (#[trigger] groups[j]).weight
                    != weight by {
                    if j > 0 {
                        assert(rest[j - 1] == groups[j]);
                    }
                }
            },
        }
    }
}

/// `group_index` finds the group at `k` where that is the first group of
/// the weight, and nothing where `k` is the number of groups and none is of
/// the weight.
proof fn lemma_group_index_at(groups: Seq<GroupModel>, weight: Seq<char>, k: int)
    requires
        0 <= k <= groups.len(),
        forall|j: int| 0 <= j < k ==> (#[trigger] groups[j]).weight != weight,
        k < groups.len() ==> groups[k].weight == weight,
    ensures
        group_index(groups, weight) == if k < groups.len() {
            Some(k)
        } else {
            None::<int>
        },
{
    lemma_group_index(groups, weight);
}

/// Adding a sound file to sound groups gives sound groups, with room for
/// one file more.
pub proof fn lemma_with_file_ok(groups: Seq<GroupModel>, file: FileModel, bound: int)
    requires
        groups_ok(groups, bound),
        file_ok(file),
        with_file(groups, file) is Ok,
    ensures
        groups_ok(with_file(groups, file)->Ok_0, bound + 1),
{
    let next = with_file(groups, file)->Ok_0;
    lemma_group_index(groups, file.weight);
    match group_index(groups, file.weight) {
        None => {
            let added = GroupModel { weight: file.weight, files: seq![file] };
            assert(group_ok(added, bound + 1));
            assert forall|i: int| 0 <= i < next.len() implies group_ok(
                #[trigger] next[i],
                bound + 1,
            ) by {
                if i < groups.len() {
                    assert(next[i] == groups[i]);
                    assert(group_ok(groups[i], bound));
                }
            }
            assert forall|i: int, j: int| 0 <= i < j < next.len() implies next[i].weight
                != next[j].weight by {
                assert(next[i] == groups[i]);
                if j < groups.len() {
                    assert(next[j] == groups[j]);
                }
            }
        },
        Some(k) => {
            let was = groups[k];
            let now = GroupModel { weight: file.weight, files: was.files.push(file) };
            assert(group_ok(was, bound));
            assert forall|i: int, j: int| 0 <= i < j < now.files.len() implies now.files[i].size
                != now.files[j].size by {
                assert(now.files[i] == was.files[i]);
                if j < was.files.len() {
                    assert(now.files[j] == was.files[j]);
                }
            }
            assert forall|i: int| 0 <= i < now.files.len() implies file_ok(
                #[trigger] now.files[i],
            ) && now.files[i].weight == now.weight by {
                if i < was.files.len() {
                    assert(now.files[i] == was.files[i]);
                }
            }
            assert(group_ok(now, bound + 1));
            assert forall|i: int| 0 <= i < next.len() implies group_ok(
                #[trigger] next[i],
                bound + 1,
            ) by {
                if i != k {
                    assert(next[i] == groups[i]);
                    assert(group_ok(groups[i], bound));
                }
            }
            assert forall|i: int, j: int| 0 <= i < j < next.len() implies next[i].weight
                != next[j].weight by {
                assert(groups[i].weight != groups[j].weight);
            }
        },
    }
}

/// The place of the first group of the given weight.
fn find_group(groups: &Vec<WeightGroup>, weight: &String) -> (r: Option<usize>)
    ensures
        match r {
            Some(i) => i < groups@.len() && group_index(group_views(groups@), weight@) == Some(
                i as int,
            ),
            None => group_index(group_views(groups@), weight@) is None,
        },
{
    let ghost models = group_views(groups@);
    let mut i: usize = 0;
    while i < groups.len()
        invariant
            models == group_views(groups@),
            i <= groups@.len(),
            forall|j: int| 0 <= j < i ==> (#[trigger] models[j]).weight != weight@,
        decreases groups@.len() - i,
    {
        if groups[i].weight == *weight {
            proof {
                lemma_group_index_at(models, weight@, i as int);
            }
            return Some(i);
        }
        i = i + 1;
    }
    proof {
        lemma_group_index_at(models, weight@, i as int);
    }
    None
}

/// Whether one of the compiled sources is of the given size.
fn holds_size(files: &Vec<CompiledFile>, size: FontSize) -> (r: bool)
    ensures
        r == has_size(file_views(files@), size),
{
    let mut i: usize = 0;
    while i < files.len()
        invariant
            i <= files@.len(),
            forall|j: int| 0 <= j < i ==> (#[trigger] file_views(files@)[j]).size != size,
        decreases files@.len() - i,
    {
        if files[i].size == size {
            assert(file_views(files@)[i as int].size == size);
            return true;
        }
        i = i + 1;
    }
    false
}

/// Adds a compiled source to the groups: to the end of the group of its
/// weight, or as a new group at the end. Where the group has a source of
/// the same size, the groups stay as they are and the fault is returned.
pub fn add_file(groups: &mut Vec<WeightGroup>, file: CompiledFile) -> (r: Result<(), CompileError>)
    ensures
        match r {
            Ok(()) => with_file(group_views(old(groups)@), file@) == Ok::<
                Seq<GroupModel>,
                Failure,
            >(group_views(final(groups)@)),
            Err(e) => with_file(group_views(old(groups)@), file@) == Err::<
                Seq<GroupModel>,
                Failure,
            >(e@) && final(groups)@ == old(groups)@,
        },
{
    let ghost before = group_views(groups@);
    match find_group(groups, &file.weight) {
        None => {
            let weight: String = file.weight.clone();
            let ghost model = file@;
            let mut files: Vec<CompiledFile> = Vec::new();
            files.push(file);
            assert(file_views(files@) =~= seq![model]);
            groups.push(WeightGroup { weight, files });
            assert(group_views(groups@) =~= before.push(
                GroupModel { weight: model.weight, files: seq![model] },
            ));
            Ok(())
        },
        Some(i) => {
            if holds_size(&groups[i].files, file.size) {
                return Err(
                    CompileError::DuplicateSize {
                        file: file.file,
                        weight: file.weight,
                        size: file.size,
                    },
                );
            }
            let ghost model = file@;
            let ghost was = groups@[i as int]@;
            proof {
                lemma_group_index(before, model.weight);
                assert(before[i as int] == was);
            }
            groups[i].files.push(file);
            assert(file_views(groups@[i as int].files@) =~= was.files.push(model));
            assert(group_views(groups@) =~= before.update(
                i as int,
                GroupModel { weight: model.weight, files: was.files.push(model) },
            ));
            Ok(())
        },
    }
}

/// Compiles the sources into a table: the compiled sources grouped by
/// weight, the groups in the order in which their weights first come. The
/// first source gives the face; every source must be of that face.
pub fn compile_table(sources: &Vec<SourceFont>) -> (r: Result<Vec<WeightGroup>, CompileError>)
    ensures
        sources@.len() == 0 ==> r == Err::<Vec<WeightGroup>, CompileError>(CompileError::NoSources),
        match r {
            Ok(groups) => table_of(sources@) == Ok::<Seq<GroupModel>, Failure>(
                group_views(groups@),
            ) && table_ok(group_views(groups@)),
            Err(e) => table_of(sources@) == Err::<Seq<GroupModel>, Failure>(e@),
        },
{
    if sources.len() == 0 {
        return Err(CompileError::NoSources);
    }
    if sources.len() > u32::MAX as usize {
        return Err(CompileError::TooManySources);
    }
    let face: String = match get_face(sources[0].name.as_str()) {
        Ok(face) => face,
        Err(cause) => {
            return Err(CompileError::Parse { file: 0, cause });
        },
    };
    let mut groups: Vec<WeightGroup> = Vec::new();
    let mut i: usize = 0;
    assert(group_views(groups@) =~= Seq::<GroupModel>::empty());
    while i < sources.len()
        invariant
            i <= sources@.len() <= u32::MAX,
            face_of(sources@[0].name@) == Ok::<Seq<char>, ParseError>(face@),
            table_of(sources@) == grouped_from(sources@, face@, i as int, group_views(groups@)),
            groups_ok(group_views(groups@), i as int),
        decreases sources@.len() - i,
    {
        let file: CompiledFile = match compile_file(&sources[i], i, &face) {
            Ok(file) => file,
            Err(e) => {
                return Err(e);
            },
        };
        proof {
            if with_file(group_views(groups@), file@) is Ok {
                lemma_with_file_ok(group_views(groups@), file@, i as int);
            }
        }
        match add_file(&mut groups, file) {
            Ok(()) => {},
            Err(e) => {
                return Err(e);
            },
        }
        i = i + 1;
    }
    proof {
        lemma_groups_ok_wider(group_views(groups@), i as int, u32::MAX as int);
    }
    Ok(groups)
}

/// Sound groups stay sound under a wider bound.
proof fn lemma_groups_ok_wider(groups: Seq<GroupModel>, bound: int, wider: int)
    requires
        groups_ok(groups, bound),
        bound <= wider,
    ensures
        groups_ok(groups, wider),
{
    assert forall|i: int| 0 <= i < groups.len() implies group_ok(#[trigger] groups[i], wider) by {
        assert(group_ok(groups[i], bound));
    }
}

/// The weights of the groups are the weights of the first `n` sources:
/// every one of these sources has a group of its weight, and every group
/// is of the weight of one of them.
pub open spec fn covers(sources: Seq<SourceFont>, n: int, groups: Seq<GroupModel>) -> bool {
    &&& forall|k: int|
        0 <= k < n ==> exists|g: int|
            0 <= g < groups.len() && weight_of((#[trigger] sources[k]).text@) == Ok::<
                Seq<char>,
                ParseError,
            >((#[trigger] groups[g]).weight)
    &&& forall|g: int|
        0 <= g < groups.len() ==> exists|k: int|
            0 <= k < n && weight_of((#[trigger] sources[k]).text@) == Ok::<Seq<char>, ParseError>(
                (#[trigger] groups[g]).weight,
            )
}

/// Adding the file of source `n` to groups that cover the sources before
/// `n` gives groups that cover the sources up to `n`.
proof fn lemma_with_file_covers(
    sources: Seq<SourceFont>,
    n: int,
    groups: Seq<GroupModel>,
    file: FileModel,
)
    requires
        0 <= n < sources.len(),
        covers(sources, n, groups),
        weight_of(sources[n].text@) == Ok::<Seq<char>, ParseError>(file.weight),
        with_file(groups, file) is Ok,
    ensures
        covers(sources, n + 1, with_file(groups, file)->Ok_0),
{
    let next = with_file(groups, file)->Ok_0;
    lemma_group_index(groups, file.weight);
    let at: int = match group_index(groups, file.weight) {
        Some(i) => i,
        None => groups.len() as int,
    };
    assert(next[at].weight == file.weight);
    assert forall|g: int| 0 <= g < next.len() && g != at implies next[g] == groups[g] by {}
    assert forall|k: int| 0 <= k < n + 1 implies exists|g: int|
        0 <= g < next.len() && weight_of((#[trigger] sources[k]).text@) == Ok::<
            Seq<char>,
            ParseError,
        >((#[trigger] next[g]).weight) by {
        if k < n {
            let g = choose|g: int|
                0 <= g < groups.len() && weight_of((#[trigger] sources[k]).text@) == Ok::<
                    Seq<char>,
                    ParseError,
                >((#[trigger] groups[g]).weight);
            assert(next[g].weight == groups[g].weight);
        } else {
            assert(weight_of(sources[k].text@) == Ok::<Seq<char>, ParseError>(next[at].weight));
        }
    }
    assert forall|g: int| 0 <= g < next.len() implies exists|k: int|
        0 <= k < n + 1 && weight_of((#[trigger] sources[k]).text@) == Ok::<Seq<char>, ParseError>(
            (#[trigger] next[g]).weight,
        ) by {
        if g == at {
            assert(weight_of(sources[n].text@) == Ok::<Seq<char>, ParseError>(next[g].weight));
        } else {
            let k = choose|k: int|
                0 <= k < n && weight_of((#[trigger] sources[k]).text@) == Ok::<
                    Seq<char>,
                    ParseError,
                >((#[trigger] groups[g]).weight);
            assert(weight_of(sources[k].text@) == Ok::<Seq<char>, ParseError>(next[g].weight));
        }
    }
}

/// Grouping the sources from `from` on keeps the groups sound and makes
/// them cover all sources.
proof fn lemma_grouped(
    sources: Seq<SourceFont>,
    face: Seq<char>,
    from: int,
    groups: Seq<GroupModel>,
)
    requires
        0 <= from <= sources.len(),
        groups_ok(groups, from),
        covers(sources, from, groups),
        grouped_from(sources, face, from, groups) is Ok,
    ensures
        groups_ok(grouped_from(sources, face, from, groups)->Ok_0, sources.len() as int),
        covers(sources, sources.len() as int, grouped_from(sources, face, from, groups)->Ok_0),
    decreases sources.len() - from,
{
    if from < sources.len() {
        let file = compiled(sources[from], from, face)->Ok_0;
        let next = with_file(groups, file)->Ok_0;
        lemma_compiled_ok(sources[from], from, face);
        lemma_with_file_ok(groups, file, from);
        lemma_with_file_covers(sources, from, groups, file);
        lemma_grouped(sources, face, from + 1, next);
    }
}

/// A table has one group for each weight among its sources: where the
/// sources compile, the table is sound, so that no two groups are of one
/// weight, however many sources are of it; every source has the group of
/// its weight; and every group is of the weight of some source.
pub proof fn lemma_one_group_per_weight(sources: Seq<SourceFont>)
    requires
        table_of(sources) is Ok,
    ensures
        table_ok(table_of(sources)->Ok_0),
        covers(sources, sources.len() as int, table_of(sources)->Ok_0),
{
    let face = face_of(sources[0].name@)->Ok_0;
    let none = Seq::<GroupModel>::empty();
    lemma_grouped(sources, face, 0, none);
    lemma_groups_ok_wider(table_of(sources)->Ok_0, sources.len() as int, u32::MAX as int);
}

/// A fault of source `k` is the fault of the whole, where the sources before
/// `k` compile and group without fault.
proof fn lemma_fault_at(
    sources: Seq<SourceFont>,
    face: Seq<char>,
    from: int,
    groups: Seq<GroupModel>,
    k: int,
    fault: Failure,
)
    requires
        0 <= from <= k < sources.len(),
        compiled(sources[k], k, face) == Err::<FileModel, Failure>(fault),
        grouped_from(sources.take(k), face, from, groups) is Ok,
    ensures
        grouped_from(sources, face, from, groups) == Err::<Seq<GroupModel>, Failure>(fault),
    decreases k - from,
{
    if from < k {
        assert(sources.take(k)[from] == sources[from]);
        let file = compiled(sources[from], from, face)->Ok_0;
        let next = with_file(groups, file)->Ok_0;
        lemma_fault_at(sources, face, from + 1, next, k, fault);
    }
}

/// A source of another face than the first fails the compilation with
/// `FaceMismatch`, which names both faces and the source: where the sources
/// before source `k` compile to a table, and source `k` declares a weight
/// and a face, but not the face of the first source.
pub proof fn lemma_other_face_fails(sources: Seq<SourceFont>, k: int)
    requires
        0 < k < sources.len() <= u32::MAX,
        table_of(sources.take(k)) is Ok,
        weight_of(sources[k].text@) is Ok,
        face_of(sources[k].name@) is Ok,
        face_of(sources[k].name@) != face_of(sources[0].name@),
    ensures
        face_of(sources[0].name@) is Ok,
        table_of(sources) == Err::<Seq<GroupModel>, Failure>(
            Failure::FaceMismatch {
                file: k,
                expected: face_of(sources[0].name@)->Ok_0,
                found: face_of(sources[k].name@)->Ok_0,
            },
        ),
{
    assert(sources.take(k)[0] == sources[0]);
    let face = face_of(sources[0].name@)->Ok_0;
    let found = face_of(sources[k].name@)->Ok_0;
    let fault = Failure::FaceMismatch { file: k, expected: face, found };
    lemma_fault_at(sources, face, 0, Seq::<GroupModel>::empty(), k, fault);
}

} // verus!

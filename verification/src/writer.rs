//! The rotation core: a model of the files a run produces, the state machine
//! that decides when the active file must be rolled over, and an in-memory
//! replay of a whole run.

use vstd::prelude::*;

verus! {

/// Model of one output file: how many bytes were already on disk when it was
/// opened, and the records appended to it since.
pub struct FileModel {
    pub init: nat,
    pub recs: Seq<Seq<u8>>,
}

/// Bytes one record occupies in a file: its length plus the newline.
pub open spec fn record_cost(r: Seq<u8>) -> nat {
    r.len() + 1
}

/// Total bytes the records of a file occupy.
pub open spec fn costs(recs: Seq<Seq<u8>>) -> nat
    decreases recs.len(),
{
    if recs.len() == 0 {
        0
    } else {
        costs(recs.drop_last()) + record_cost(recs.last())
    }
}

/// Total length of a file: its initial bytes plus its appended records.
pub open spec fn file_total(f: FileModel) -> nat {
    f.init + costs(f.recs)
}

/// Byte offset at which record `i` of file `f` starts.
pub open spec fn record_offset(f: FileModel, i: int) -> nat {
    f.init + costs(f.recs.take(i))
}

/// The bytes of a file that started empty: its records, each followed by a
/// newline.
pub open spec fn recs_bytes(recs: Seq<Seq<u8>>) -> Seq<u8>
    decreases recs.len(),
{
    if recs.len() == 0 {
        Seq::empty()
    } else {
        recs_bytes(recs.drop_last()) + recs.last() + seq![10u8]
    }
}

pub proof fn lemma_recs_bytes_len(recs: Seq<Seq<u8>>)
    ensures
        recs_bytes(recs).len() == costs(recs),
    decreases recs.len(),
{
    if recs.len() > 0 {
        lemma_recs_bytes_len(recs.drop_last());
    }
}

/// The files a whole run produces, oldest first: each record goes to the
/// current (last) file, after rolling over to a fresh empty file whenever the
/// record would push the current file past `budget`.  The first file starts
/// with `init` bytes already present.
pub open spec fn run_model(budget: nat, init: nat, recs: Seq<Seq<u8>>) -> Seq<FileModel>
    decreases recs.len(),
{
    if recs.len() == 0 {
        seq![FileModel { init, recs: Seq::empty() }]
    } else {
        let prev = run_model(budget, init, recs.drop_last());
        let r = recs.last();
        let cur = prev.last();
        if file_total(cur) + record_cost(r) > budget {
            prev.push(FileModel { init: 0, recs: seq![r] })
        } else {
            prev.update(prev.len() - 1, FileModel { init: cur.init, recs: cur.recs.push(r) })
        }
    }
}

pub proof fn lemma_run_model_nonempty(budget: nat, init: nat, recs: Seq<Seq<u8>>)
    ensures
        run_model(budget, init, recs).len() >= 1,
    decreases recs.len(),
{
    if recs.len() > 0 {
        lemma_run_model_nonempty(budget, init, recs.drop_last());
    }
}

/// Rotation invariant: in a run that starts from an empty file, no output
/// file's length ever exceeds the chunk budget, except that a file may hold
/// exactly one record whose own cost already exceeds the budget — and then
/// its length is exactly that record's cost and it holds nothing else.
pub proof fn lemma_rotation_invariant(budget: nat, recs: Seq<Seq<u8>>, i: int)
    requires
        0 <= i < run_model(budget, 0, recs).len(),
    ensures
        ({
            let f = run_model(budget, 0, recs)[i];
            file_total(f) <= budget || (f.recs.len() == 1 && record_cost(f.recs[0]) > budget
                && file_total(f) == record_cost(f.recs[0]))
        }),
    decreases recs.len(),
{
    if recs.len() == 0 {
        assert(costs(Seq::<Seq<u8>>::empty()) == 0);
    } else {
        let prev = run_model(budget, 0, recs.drop_last());
        let r = recs.last();
        let cur = prev.last();
        lemma_run_model_nonempty(budget, 0, recs.drop_last());
        if file_total(cur) + record_cost(r) > budget {
            if i < prev.len() {
                lemma_rotation_invariant(budget, recs.drop_last(), i);
            } else {
                let f = run_model(budget, 0, recs)[i];
                assert(f == FileModel { init: 0 as nat, recs: seq![r] });
                assert(seq![r].drop_last() =~= Seq::<Seq<u8>>::empty());
                assert(seq![r].last() == r);
                assert(costs(Seq::<Seq<u8>>::empty()) == 0);
                assert(costs(seq![r]) == record_cost(r));
            }
        } else {
            if i < prev.len() - 1 {
                lemma_rotation_invariant(budget, recs.drop_last(), i);
            } else {
                let f = run_model(budget, 0, recs)[i];
                assert(f == FileModel { init: cur.init, recs: cur.recs.push(r) });
                assert(cur.recs.push(r).drop_last() =~= cur.recs);
                assert(costs(cur.recs.push(r)) == costs(cur.recs) + record_cost(r));
            }
        }
    }
}

/// Only the first file of a run can start with bytes already present; every
/// file a rotation opens starts empty.
pub proof fn lemma_run_model_inits(budget: nat, init: nat, recs: Seq<Seq<u8>>, i: int)
    requires
        0 <= i < run_model(budget, init, recs).len(),
    ensures
        run_model(budget, init, recs)[i].init == if i == 0 {
            init
        } else {
            0
        },
    decreases recs.len(),
{
    if recs.len() > 0 {
        let prev = run_model(budget, init, recs.drop_last());
        lemma_run_model_nonempty(budget, init, recs.drop_last());
        if i < prev.len() {
            lemma_run_model_inits(budget, init, recs.drop_last(), i);
        }
    }
}

/// The rotation invariant, stated over the bytes of the files themselves: in
/// a run from an empty file, no file's content is longer than the budget,
/// unless it holds exactly one record whose own cost exceeds the budget.
pub proof fn lemma_rotation_invariant_bytes(budget: nat, recs: Seq<Seq<u8>>, i: int)
    requires
        0 <= i < run_model(budget, 0, recs).len(),
    ensures
        ({
            let f = run_model(budget, 0, recs)[i];
            recs_bytes(f.recs).len() <= budget || (f.recs.len() == 1 && record_cost(f.recs[0])
                > budget && recs_bytes(f.recs).len() == record_cost(f.recs[0]))
        }),
{
    let f = run_model(budget, 0, recs)[i];
    lemma_rotation_invariant(budget, recs, i);
    lemma_run_model_inits(budget, 0, recs, i);
    lemma_recs_bytes_len(f.recs);
}

/// Appending never overwrites: the first record of a file starts exactly at
/// the file's initial (resumed-from) length, and every later record starts
/// exactly where the one before it ends.
pub proof fn lemma_append_offsets(f: FileModel, i: int)
    requires
        0 <= i < f.recs.len(),
    ensures
        record_offset(f, 0) == f.init,
        record_offset(f, i + 1) == record_offset(f, i) + record_cost(f.recs[i]),
{
    assert(f.recs.take(0) =~= Seq::<Seq<u8>>::empty());
    assert(f.recs.take(i + 1).drop_last() =~= f.recs.take(i));
    assert(f.recs.take(i + 1).last() == f.recs[i]);
}

/// Resume: when the first file already holds `init` bytes and the first
/// record still fits under the budget, that record is appended to the same
/// file, starting at offset `init`.
pub proof fn lemma_resume(budget: nat, init: nat, recs: Seq<Seq<u8>>)
    requires
        recs.len() >= 1,
        init + record_cost(recs[0]) <= budget,
    ensures
        ({
            let files = run_model(budget, init, recs);
            files[0].init == init && files[0].recs.len() >= 1 && files[0].recs[0] == recs[0]
                && record_offset(files[0], 0) == init
        }),
    decreases recs.len(),
{
    assert(run_model(budget, init, recs)[0].recs.take(0) =~= Seq::<Seq<u8>>::empty());
    if recs.len() == 1 {
        let base = run_model(budget, init, recs.drop_last());
        assert(recs.drop_last().len() == 0);
        assert(base == seq![FileModel { init, recs: Seq::<Seq<u8>>::empty() }]);
        assert(costs(Seq::<Seq<u8>>::empty()) == 0);
        assert(file_total(base.last()) == init);
        assert(recs.last() == recs[0]);
    } else {
        let sub = recs.drop_last();
        assert(sub[0] == recs[0]);
        lemma_resume(budget, init, sub);
        let prev = run_model(budget, init, sub);
        lemma_run_model_nonempty(budget, init, sub);
        let cur = prev.last();
        let r = recs.last();
        if file_total(cur) + record_cost(r) > budget {
            assert(run_model(budget, init, recs)[0] == prev[0]);
        } else {
            if prev.len() == 1 {
                assert(cur == prev[0]);
                assert(cur.recs.push(r)[0] == recs[0]);
            } else {
                assert(run_model(budget, init, recs)[0] == prev[0]);
            }
        }
    }
}

/// One step of the run model is exactly one step of the writer below: when
/// the record would push the active file past the budget, a fresh empty file
/// is opened (`rotate_to`) and the record goes there (`record_written`);
/// otherwise the record goes to the active file directly.
pub proof fn lemma_run_model_step(budget: nat, init: nat, recs: Seq<Seq<u8>>, r: Seq<u8>)
    ensures
        ({
            let m = run_model(budget, init, recs);
            let cur = m.last();
            run_model(budget, init, recs.push(r)) == if file_total(cur) + record_cost(r)
                > budget {
                m.push(FileModel { init: 0 as nat, recs: seq![r] })
            } else {
                m.update(m.len() - 1, FileModel { init: cur.init, recs: cur.recs.push(r) })
            }
        }),
{
    assert(recs.push(r).drop_last() =~= recs);
    assert(recs.push(r).last() == r);
}

/// The rotation state machine.  It tracks the active file's byte length and
/// decides, record by record, whether a fresh file must be opened before the
/// record is written; the caller performs the file-system work between the
/// calls and reports it back.  The ghost `files` field models everything the
/// run has produced so far.
pub struct RotatingWriter {
    chunk_budget: u64,
    current_len: u64,
    files: Ghost<Seq<FileModel>>,
}

impl RotatingWriter {
    pub closed spec fn spec_budget(self) -> int {
        self.chunk_budget as int
    }

    pub closed spec fn spec_len(self) -> int {
        self.current_len as int
    }

    /// The files this run has produced, the last one being the active file.
    pub closed spec fn model(self) -> Seq<FileModel> {
        self.files@
    }

    /// The tracked length always equals the modelled length of the active
    /// file.
    pub open spec fn wf(self) -> bool {
        self.model().len() >= 1 && self.spec_len() == file_total(self.model().last())
    }

    /// A writer whose first active file was opened holding `disk_len` bytes:
    /// 0 for a fresh file, more when a prior run's file is resumed.
    pub fn new(chunk_budget: u64, disk_len: u64) -> (w: RotatingWriter)
        ensures
            w.wf(),
            w.spec_budget() == chunk_budget as int,
            w.spec_len() == disk_len as int,
            w.model() == seq![FileModel { init: disk_len as nat, recs: Seq::<Seq<u8>>::empty() }],
    {
        let ghost m = seq![FileModel { init: disk_len as nat, recs: Seq::<Seq<u8>>::empty() }];
        let w = RotatingWriter { chunk_budget, current_len: disk_len, files: Ghost(m) };
        proof {
            assert(costs(Seq::<Seq<u8>>::empty()) == 0);
        }
        w
    }

    /// Whether writing a record of `record_len` bytes (plus its newline)
    /// would push the active file past the chunk budget, so that a fresh
    /// file must be opened first.
    pub fn needs_rotation(&self, record_len: usize) -> (r: bool)
        ensures
            r == (self.spec_len() + record_len + 1 > self.spec_budget()),
    {
        (self.current_len as u128) + (record_len as u128) + 1 > (self.chunk_budget as u128)
    }

    /// Records that a freshly opened file holding `disk_len` bytes is now the
    /// active file; the one before it is closed for good.
    pub fn rotate_to(&mut self, disk_len: u64)
        requires
            old(self).wf(),
        ensures
            final(self).wf(),
            final(self).spec_budget() == old(self).spec_budget(),
            final(self).spec_len() == disk_len as int,
            final(self).model() == old(self).model().push(
                FileModel { init: disk_len as nat, recs: Seq::<Seq<u8>>::empty() },
            ),
    {
        self.current_len = disk_len;
        let ghost m = self.files@.push(
            FileModel { init: disk_len as nat, recs: Seq::<Seq<u8>>::empty() },
        );
        self.files = Ghost(m);
        proof {
            assert(costs(Seq::<Seq<u8>>::empty()) == 0);
        }
    }

    /// Records that `record` followed by one newline byte was appended to the
    /// active file.
    pub fn record_written(&mut self, record: &[u8])
        requires
            old(self).wf(),
            old(self).spec_len() + record@.len() + 1 <= u64::MAX,
        ensures
            final(self).wf(),
            final(self).spec_budget() == old(self).spec_budget(),
            final(self).spec_len() == old(self).spec_len() + record@.len() + 1,
            final(self).model() == old(self).model().update(
                old(self).model().len() - 1,
                FileModel {
                    init: old(self).model().last().init,
                    recs: old(self).model().last().recs.push(record@),
                },
            ),
    {
        self.current_len = self.current_len + record.len() as u64 + 1;
        let ghost m = self.files@.update(
            self.files@.len() - 1,
            FileModel {
                init: self.files@.last().init,
                recs: self.files@.last().recs.push(record@),
            },
        );
        self.files = Ghost(m);
        proof {
            let f = old(self).model().last();
            assert(f.recs.push(record@).drop_last() =~= f.recs);
            assert(costs(f.recs.push(record@)) == costs(f.recs) + record_cost(record@));
        }
    }

    pub fn chunk_budget(&self) -> (r: u64)
        ensures
            r as int == self.spec_budget(),
    {
        self.chunk_budget
    }

    pub fn current_len(&self) -> (r: u64)
        ensures
            r as int == self.spec_len(),
    {
        self.current_len
    }
}

/// The views of a sequence of byte vectors.
pub open spec fn views_of(rs: Seq<Vec<u8>>) -> Seq<Seq<u8>> {
    Seq::new(rs.len(), |i: int| rs[i]@)
}

/// Replays a whole run in memory, starting from a fresh empty file and
/// opening a fresh empty file at each rotation: returns the bytes of every
/// output file, oldest first.
pub fn simulate_run(chunk_budget: u64, records: &Vec<Vec<u8>>) -> (files: Vec<Vec<u8>>)
    ensures
        ({
            let m = run_model(chunk_budget as nat, 0, views_of(records@));
            files@.len() == m.len() && forall|i: int|
                0 <= i < m.len() ==> files@[i]@ == recs_bytes(m[i].recs)
        }),
{
    let mut files: Vec<Vec<u8>> = Vec::new();
    let mut cur: Vec<u8> = Vec::new();
    let mut idx: usize = 0;
    proof {
        assert(views_of(records@).take(0) =~= Seq::<Seq<u8>>::empty());
    }
    while idx < records.len()
        invariant
            idx <= records@.len(),
            ({
                let m = run_model(chunk_budget as nat, 0, views_of(records@).take(idx as int));
                files@.len() == m.len() - 1 && (forall|i: int|
                    0 <= i < m.len() - 1 ==> files@[i]@ == recs_bytes(m[i].recs)) && cur@
                    == recs_bytes(m.last().recs) && m.last().init == 0
            }),
        decreases records@.len() - idx,
    {
        let ghost pre = views_of(records@).take(idx as int);
        let ghost m = run_model(chunk_budget as nat, 0, pre);
        proof {
            lemma_run_model_nonempty(chunk_budget as nat, 0, pre);
            lemma_recs_bytes_len(m.last().recs);
        }
        let r = &records[idx];
        let would = (cur.len() as u128) + (r.len() as u128) + 1;
        if would > chunk_budget as u128 {
            files.push(cur);
            cur = Vec::new();
        }
        let ghost cur0 = cur@;
        let mut j: usize = 0;
        while j < r.len()
            invariant
                j <= r@.len(),
                cur@ == cur0 + r@.take(j as int),
            decreases r@.len() - j,
        {
            cur.push(r[j]);
            proof {
                assert(r@.take(j + 1) =~= r@.take(j as int).push(r@[j as int]));
                assert(cur@ =~= cur0 + r@.take(j + 1));
            }
            j += 1;
        }
        cur.push(10u8);
        proof {
            assert(r@.take(r@.len() as int) =~= r@);
            assert(cur@ =~= cur0 + r@ + seq![10u8]);
            let post = views_of(records@).take(idx + 1);
            assert(post.drop_last() =~= pre);
            assert(post.last() == records@[idx as int]@);
            let mp = run_model(chunk_budget as nat, 0, post);
            let old_last = m.last();
            if file_total(old_last) + record_cost(r@) > chunk_budget as nat {
                assert(mp == m.push(FileModel { init: 0 as nat, recs: seq![r@] }));
                assert(seq![r@].drop_last() =~= Seq::<Seq<u8>>::empty());
                assert(recs_bytes(Seq::<Seq<u8>>::empty()) =~= Seq::<u8>::empty());
                assert(recs_bytes(seq![r@]) =~= r@ + seq![10u8]);
                assert(cur@ == recs_bytes(mp.last().recs));
                assert(forall|i: int| 0 <= i < mp.len() - 1 ==> files@[i]@ == recs_bytes(mp[i].recs));
            } else {
                assert(mp == m.update(
                    m.len() - 1,
                    FileModel { init: old_last.init, recs: old_last.recs.push(r@) },
                ));
                assert(old_last.recs.push(r@).drop_last() =~= old_last.recs);
                assert(cur@ == recs_bytes(mp.last().recs));
                assert(forall|i: int| 0 <= i < mp.len() - 1 ==> files@[i]@ == recs_bytes(mp[i].recs));
            }
        }
        idx += 1;
    }
    proof {
        assert(views_of(records@).take(records@.len() as int) =~= views_of(records@));
    }
    files.push(cur);
    files
}

} // verus!


//! The case bank of one program, and the byte framing of its sidecar file.
use vstd::prelude::*;
use crate::paths::{extension_of, file_name_of, set_extension, path_extension, path_file_name, path_set_extension};

verus! {

/// The judgement recorded for one run of a case.
#[derive(Debug, Clone, Copy, PartialEq, Eq, Structural)]
pub enum Verdict {
    Pass,
    Fail,
    Tle,
    Runtime,
    Ran,
}

/// The short label shown for each verdict.
pub open spec fn verdict_label(v: Verdict) -> Seq<char> {
    match v {
        Verdict::Pass => "AC"@,
        Verdict::Fail => "WA"@,
        Verdict::Tle => "TLE"@,
        Verdict::Runtime => "RE"@,
        Verdict::Ran => "OK"@,
    }
}

impl Verdict {
    pub fn label(self) -> (s: &'static str)
        ensures
            s@ == verdict_label(self),
    {
        match self {
            Verdict::Pass => "AC",
            Verdict::Fail => "WA",
            Verdict::Tle => "TLE",
            Verdict::Runtime => "RE",
            Verdict::Ran => "OK",
        }
    }
}

/// What one run of a case produced.
#[derive(Debug, Clone)]
pub struct RunRecord {
    pub verdict: Verdict,
    pub duration_ns: u64,
    pub stdout: String,
    pub stderr: String,
    pub exit_code: Option<i32>,
}

/// One test case: its stdin, the expected stdout if any, and its last run.
#[derive(Debug, Clone)]
pub struct Case {
    pub id: u32,
    pub name: String,
    pub input: String,
    pub expected: Option<String>,
    pub last: Option<RunRecord>,
}

/// The cases of one program.
#[derive(Debug, Clone)]
pub struct Bank {
    pub source_name: String,
    pub next_id: u32,
    pub cases: Vec<Case>,
}

/// The position of the first case in `cases` with the given id.
pub open spec fn first_index_of(cases: Seq<Case>, id: u32) -> Option<int>
    decreases cases.len(),
{
    if cases.len() == 0 {
        None
    } else {
        match first_index_of(cases.drop_last(), id) {
            Some(i) => Some(i),
            None => if cases.last().id == id {
                Some(cases.len() - 1)
            } else {
                None
            },
        }
    }
}

/// Whether some case in `cases` has the given id.
pub open spec fn has_id(cases: Seq<Case>, id: u32) -> bool {
    exists|i: int| 0 <= i < cases.len() && cases[i].id == id
}

/// The cases whose id differs from `id`, in their order.
pub open spec fn without_id(cases: Seq<Case>, id: u32) -> Seq<Case> {
    cases.filter(|c: Case| c.id != id)
}

impl Bank {
    /// A bank that `add` can extend: ids are distinct and below `next_id`,
    /// which is at least 1.
    pub open spec fn wf(&self) -> bool {
        &&& self.next_id >= 1
        &&& forall|i: int| 0 <= i < self.cases@.len() ==> #[trigger] self.cases@[i].id < self.next_id
        &&& forall|i: int, j: int|
            0 <= i < j < self.cases@.len() ==> #[trigger] self.cases@[i].id
                != #[trigger] self.cases@[j].id
    }

    /// An empty bank for the program named `source_name`.
    pub fn new(source_name: &str) -> (b: Bank)
        ensures
            b.source_name@ == source_name@,
            b.next_id == 1,
            b.cases@.len() == 0,
            b.wf(),
    {
        Bank { source_name: String::from_str(source_name), next_id: 1, cases: Vec::new() }
    }

    /// Appends a case that has not run yet and returns its id, the bank's
    /// `next_id`, which then moves on by one.
    pub fn add(&mut self, name: String, input: String, expected: Option<String>) -> (id: u32)
        requires
            old(self).next_id < u32::MAX,
        ensures
            id == old(self).next_id,
            final(self).next_id == old(self).next_id + 1,
            final(self).source_name == old(self).source_name,
            final(self).cases@ == old(self).cases@.push(
                Case { id, name, input, expected, last: None },
            ),
            old(self).wf() ==> final(self).wf(),
    {
        let id = self.next_id;
        self.next_id = self.next_id + 1;
        self.cases.push(Case { id, name, input, expected, last: None });
        id
    }

    /// The position of the first case with the given id.
    pub fn index_of(&self, id: u32) -> (r: Option<usize>)
        ensures
            match r {
                Some(i) => first_index_of(self.cases@, id) == Some(i as int),
                None => first_index_of(self.cases@, id) is None,
            },
    {
        let mut i: usize = 0;
        while i < self.cases.len()
            invariant
                i <= self.cases@.len(),
                first_index_of(self.cases@.take(i as int), id) is None,
            decreases self.cases@.len() - i,
        {
            assert(self.cases@.take(i + 1).drop_last() =~= self.cases@.take(i as int));
            if self.cases[i].id == id {
                proof {
                    lemma_first_index_extends(self.cases@, i as int, id);
                }
                return Some(i);
            }
            i += 1;
        }
        assert(self.cases@.take(i as int) =~= self.cases@);
        None
    }

    /// The first case with the given id, to change in place.
    pub fn get_mut(&mut self, id: u32) -> (r: Option<&mut Case>)
        ensures
            first_index_of(old(self).cases@, id) is None ==> r is None && *final(self) == *old(
                self,
            ),
            first_index_of(old(self).cases@, id) matches Some(i) ==> r is Some && *r->0
                == old(self).cases@[i] && final(self).cases@ == old(self).cases@.update(
                i,
                *final(r->0),
            ) && final(self).next_id == old(self).next_id && final(self).source_name == old(
                self,
            ).source_name,
    {
        match self.index_of(id) {
            Some(i) => {
                proof {
                    lemma_first_index_of(self.cases@, id);
                }
                Some(&mut self.cases[i])
            },
            None => None,
        }
    }

    /// Removes every case with the given id; true when one was there.
    pub fn remove(&mut self, id: u32) -> (removed: bool)
        ensures
            final(self).cases@ == without_id(old(self).cases@, id),
            final(self).next_id == old(self).next_id,
            final(self).source_name == old(self).source_name,
            removed == has_id(old(self).cases@, id),
            old(self).wf() ==> final(self).wf(),
    {
        let before = self.cases.len();
        let mut taken: Vec<Case> = Vec::new();
        std::mem::swap(&mut taken, &mut self.cases);
        let ghost orig = taken@;
        let mut kept: Vec<Case> = Vec::new();
        for c in it: taken
            invariant
                it.seq() == orig,
                kept@ == without_id(orig.take(it.index()), id),
        {
            let ghost k = it.index();
            assert(orig.take(k + 1).drop_last() =~= orig.take(k));
            assert(orig.take(k + 1).last() == c);
            reveal_with_fuel(Seq::filter, 1);
            if c.id != id {
                kept.push(c);
            }
        }
        proof {
            assert(orig.take(orig.len() as int) =~= orig);
            lemma_without_id_len(orig, id);
        }
        self.cases = kept;
        proof {
            if self.next_id >= 1 && old(self).wf() {
                lemma_without_id_wf(orig, id, self.next_id);
            }
        }
        self.cases.len() != before
    }
}

/// Extending a prefix with no match by a matching case finds that case.
proof fn lemma_first_index_extends(cases: Seq<Case>, i: int, id: u32)
    requires
        0 <= i < cases.len(),
        first_index_of(cases.take(i), id) is None,
        cases[i].id == id,
    ensures
        first_index_of(cases, id) == Some(i),
    decreases cases.len(),
{
    if cases.len() - 1 == i {
        assert(cases.drop_last() =~= cases.take(i));
    } else {
        assert(cases.drop_last().take(i) =~= cases.take(i));
        lemma_first_index_extends(cases.drop_last(), i, id);
    }
}

/// The first index of an id is exactly where its first occurrence is.
pub proof fn lemma_first_index_of(cases: Seq<Case>, id: u32)
    ensures
        first_index_of(cases, id) is None <==> !has_id(cases, id),
        first_index_of(cases, id) matches Some(i) ==> 0 <= i < cases.len() && cases[i].id == id
            && forall|k: int| 0 <= k < i ==> #[trigger] cases[k].id != id,
    decreases cases.len(),
{
    if cases.len() > 0 {
        let d = cases.drop_last();
        lemma_first_index_of(d, id);
        assert forall|k: int| 0 <= k < d.len() implies #[trigger] d[k] == cases[k] by {}
        if has_id(d, id) {
            let k = choose|k: int| 0 <= k < d.len() && d[k].id == id;
            assert(cases[k].id == id);
        }
        if has_id(cases, id) && !has_id(d, id) {
            let k = choose|k: int| 0 <= k < cases.len() && cases[k].id == id;
            if k < d.len() {
                assert(d[k].id == id);
            }
        }
        if let Some(i) = first_index_of(d, id) {
            assert forall|k: int| 0 <= k < i implies #[trigger] cases[k].id != id by {
                assert(d[k].id != id);
            }
        }
        if first_index_of(d, id) is None && cases.last().id == id {
            assert forall|k: int| 0 <= k < cases.len() - 1 implies #[trigger] cases[k].id != id by {
                assert(d[k] == cases[k]);
            }
        }
    }
}

proof fn lemma_without_id_len(cases: Seq<Case>, id: u32)
    ensures
        (without_id(cases, id).len() != cases.len()) == has_id(cases, id),
        without_id(cases, id).len() <= cases.len(),
    decreases cases.len(),
{
    reveal_with_fuel(Seq::filter, 1);
    if cases.len() > 0 {
        let d = cases.drop_last();
        lemma_without_id_len(d, id);
        if has_id(d, id) {
            let k = choose|k: int| 0 <= k < d.len() && d[k].id == id;
            assert(cases[k].id == id);
        }
        if has_id(cases, id) && !has_id(d, id) {
            let k = choose|k: int| 0 <= k < cases.len() && cases[k].id == id;
            if k < d.len() {
                assert(d[k].id == id);
            }
        }
    }
}

/// Every kept case is one of the given cases, and none has the id.
proof fn lemma_without_id_members(cases: Seq<Case>, id: u32)
    ensures
        forall|j: int|
            0 <= j < without_id(cases, id).len() ==> #[trigger] without_id(cases, id)[j].id != id
                && cases.contains(without_id(cases, id)[j]),
{
    assert forall|j: int| 0 <= j < without_id(cases, id).len() implies #[trigger] without_id(
        cases,
        id,
    )[j].id != id && cases.contains(without_id(cases, id)[j]) by {
        cases.lemma_filter_pred(|c: Case| c.id != id, j);
        cases.lemma_filter_contains_rev(|c: Case| c.id != id, without_id(cases, id)[j]);
    }
}

proof fn lemma_without_id_wf(cases: Seq<Case>, id: u32, next_id: u32)
    requires
        forall|i: int| 0 <= i < cases.len() ==> #[trigger] cases[i].id < next_id,
        forall|i: int, j: int|
            0 <= i < j < cases.len() ==> #[trigger] cases[i].id != #[trigger] cases[j].id,
    ensures
        forall|i: int|
            0 <= i < without_id(cases, id).len() ==> #[trigger] without_id(cases, id)[i].id
                < next_id,
        forall|i: int, j: int|
            0 <= i < j < without_id(cases, id).len() ==> #[trigger] without_id(cases, id)[i].id
                != #[trigger] without_id(cases, id)[j].id,
    decreases cases.len(),
{
    reveal_with_fuel(Seq::filter, 1);
    lemma_without_id_members(cases, id);
    let w = without_id(cases, id);
    assert forall|i: int| 0 <= i < w.len() implies #[trigger] w[i].id < next_id by {
        let k = choose|k: int| 0 <= k < cases.len() && cases[k] == w[i];
        assert(cases[k].id < next_id);
    }
    if cases.len() > 0 {
        let d = cases.drop_last();
        lemma_without_id_wf(d, id, next_id);
        let wd = without_id(d, id);
        lemma_without_id_members(d, id);
        if cases.last().id != id {
            assert(w == wd.push(cases.last()));
            assert forall|i: int, j: int| 0 <= i < j < w.len() implies #[trigger] w[i].id
                != #[trigger] w[j].id by {
                if j == w.len() - 1 {
                    assert(w[i] == wd[i]);
                    let k = choose|k: int| 0 <= k < d.len() && d[k] == wd[i];
                    assert(cases[k].id != cases[cases.len() - 1].id);
                } else {
                    assert(w[i] == wd[i]);
                    assert(w[j] == wd[j]);
                }
            }
        } else {
            assert(w == wd);
        }
    }
}

/// After `add` in a well-formed bank, `index_of` finds the new case at the end.
pub proof fn lemma_add_then_index_of(before: Bank, after: Bank, id: u32)
    requires
        before.wf(),
        id == before.next_id,
        after.cases@.len() == before.cases@.len() + 1,
        after.cases@.drop_last() == before.cases@,
        after.cases@.last().id == id,
    ensures
        first_index_of(after.cases@, id) == Some(before.cases@.len() as int),
{
    lemma_first_index_of(before.cases@, id);
    if has_id(before.cases@, id) {
        let k = choose|k: int| 0 <= k < before.cases@.len() && before.cases@[k].id == id;
        assert(before.cases@[k].id < before.next_id);
    }
}

/// After `remove(id)`, no case with that id is left.
pub proof fn lemma_remove_then_index_of(cases: Seq<Case>, id: u32)
    ensures
        first_index_of(without_id(cases, id), id) is None,
{
    lemma_without_id_members(cases, id);
    lemma_first_index_of(without_id(cases, id), id);
    if has_id(without_id(cases, id), id) {
        let k = choose|k: int|
            0 <= k < without_id(cases, id).len() && without_id(cases, id)[k].id == id;
        assert(without_id(cases, id)[k].id != id);
    }
}


/// The zstd level that banks are written with.
pub const ZSTD_LEVEL: i32 = 3;

/// The four bytes that open every bank file: `FBK1`.
pub open spec fn magic() -> Seq<u8> {
    seq![0x46u8, 0x42u8, 0x4Bu8, 0x31u8]
}

/// Why bank bytes could not be framed or unframed.
#[derive(Debug, Clone, PartialEq, Eq)]
pub enum FrameError {
    /// The bytes do not open with the bank magic.
    NotABank,
    /// What follows the magic is not a zstd stream; zstd's message.
    Decompress(String),
    /// zstd could not compress the payload; zstd's message.
    Compress(String),
}

/// What `zstd::encode_all` yields for `raw` at `level`, or `None` where it
/// fails.
pub uninterp spec fn zstd_compressed(raw: Seq<u8>, level: i32) -> Option<Seq<u8>>;

/// What `zstd::decode_all` yields for `frame`, or `None` where it fails.
pub uninterp spec fn zstd_decompressed(frame: Seq<u8>) -> Option<Seq<u8>>;

/// Calls `zstd::encode_all(raw, level)`. Its outcome is named by
/// `zstd_compressed`: the crate's source fails only on error codes that zstd
/// returns for these arguments. A result decodes back to `raw` with
/// `zstd::decode_all` (zstd is lossless). The error's text is not claimed.
#[verifier::external_body]
fn zstd_encode(raw: &[u8], level: i32) -> (r: Result<Vec<u8>, String>)
    ensures
        match r {
            Ok(c) => zstd_compressed(raw@, level) == Some(c@) && zstd_decompressed(c@) == Some(
                raw@,
            ),
            Err(_) => zstd_compressed(raw@, level) is None,
        },
{
    match zstd::encode_all(raw, level) {
        Ok(c) => Ok(c),
        Err(e) => Err(e.to_string()),
    }
}

/// Calls `zstd::decode_all(frame)`: its outcome is named by
/// `zstd_decompressed`. The error's text is not claimed.
#[verifier::external_body]
fn zstd_decode(frame: &[u8]) -> (r: Result<Vec<u8>, String>)
    ensures
        match r {
            Ok(v) => zstd_decompressed(frame@) == Some(v@),
            Err(_) => zstd_decompressed(frame@) is None,
        },
{
    match zstd::decode_all(frame) {
        Ok(v) => Ok(v),
        Err(e) => Err(e.to_string()),
    }
}

/// Whether the bytes open with the bank magic.
pub open spec fn has_magic(bytes: Seq<u8>) -> bool {
    bytes.len() >= 4 && bytes.take(4) == magic()
}

/// What reading a bank file's bytes gives: the payload after the magic,
/// decompressed; `None` where the magic is missing or the payload is not a
/// zstd stream.
pub open spec fn unpacked(bytes: Seq<u8>) -> Option<Seq<u8>> {
    if has_magic(bytes) {
        zstd_decompressed(bytes.skip(4))
    } else {
        None
    }
}

/// Checks the magic of a bank file's bytes and decompresses the payload.
pub fn unpack(bytes: &[u8]) -> (r: Result<Vec<u8>, FrameError>)
    ensures
        match r {
            Ok(v) => unpacked(bytes@) == Some(v@),
            Err(FrameError::NotABank) => !has_magic(bytes@),
            Err(FrameError::Decompress(_)) => has_magic(bytes@) && unpacked(bytes@) is None,
            Err(FrameError::Compress(_)) => false,
        },
{
    if bytes.len() < 4 || bytes[0] != 0x46u8 || bytes[1] != 0x42u8 || bytes[2] != 0x4Bu8
        || bytes[3] != 0x31u8 {
        proof {
            if bytes@.len() >= 4 {
                assert(bytes@.take(4)[0] == bytes@[0]);
                assert(bytes@.take(4)[1] == bytes@[1]);
                assert(bytes@.take(4)[2] == bytes@[2]);
                assert(bytes@.take(4)[3] == bytes@[3]);
                assert(bytes@.take(4) != magic());
            }
        }
        return Err(FrameError::NotABank);
    }
    assert(bytes@.take(4) =~= magic());
    let payload = vstd::slice::slice_subrange(bytes, 4, bytes.len());
    assert(payload@ =~= bytes@.skip(4));
    match zstd_decode(payload) {
        Ok(raw) => Ok(raw),
        Err(msg) => Err(FrameError::Decompress(msg)),
    }
}

/// Compresses a bank's encoded bytes and puts the magic in front.
pub fn pack(raw: &[u8]) -> (r: Result<Vec<u8>, FrameError>)
    ensures
        match r {
            Ok(b) => zstd_compressed(raw@, ZSTD_LEVEL) matches Some(c) && b@ == magic() + c
                && unpacked(b@) == Some(raw@),
            Err(FrameError::Compress(_)) => zstd_compressed(raw@, ZSTD_LEVEL) is None,
            Err(_) => false,
        },
{
    match zstd_encode(raw, ZSTD_LEVEL) {
        Ok(c) => {
            let mut out: Vec<u8> = Vec::new();
            out.push(0x46u8);
            out.push(0x42u8);
            out.push(0x4Bu8);
            out.push(0x31u8);
            assert(out@ =~= magic());
            let mut i: usize = 0;
            while i < c.len()
                invariant
                    i <= c.len(),
                    out@ == magic() + c@.take(i as int),
                decreases c.len() - i,
            {
                assert(c@.take(i + 1) =~= c@.take(i as int).push(c@[i as int]));
                assert(magic() + c@.take(i + 1) =~= (magic() + c@.take(i as int)).push(c@[i as int]));
                out.push(c[i]);
                i += 1;
            }
            assert(c@.take(c.len() as int) =~= c@);
            proof {
                lemma_pack_unpack(raw@, c@);
            }
            Ok(out)
        },
        Err(msg) => Err(FrameError::Compress(msg)),
    }
}

/// Reading back what was written: the magic followed by a zstd stream of `raw`
/// unpacks to `raw`.
pub proof fn lemma_pack_unpack(raw: Seq<u8>, compressed: Seq<u8>)
    requires
        zstd_decompressed(compressed) == Some(raw),
    ensures
        unpacked(magic() + compressed) == Some(raw),
{
    assert((magic() + compressed).take(4) =~= magic());
    assert((magic() + compressed).skip(4) =~= compressed);
}

/// The extension the sidecar file gets: the program's own extension followed
/// by `.fbk`, or `fbk` for a program without one.
pub open spec fn sidecar_extension_of(ext: Option<Seq<char>>) -> Seq<char> {
    match ext {
        Some(e) => e + ".fbk"@,
        None => "fbk"@,
    }
}

/// The extension the sidecar file gets (see `sidecar_extension_of`).
pub fn sidecar_extension(ext: Option<&str>) -> (r: String)
    ensures
        r@ == sidecar_extension_of(
            match ext {
                Some(e) => Some(e@),
                None => None,
            },
        ),
{
    match ext {
        Some(e) => {
            let mut s = String::from_str(e);
            s.append(".fbk");
            s
        },
        None => String::from_str("fbk"),
    }
}

/// The bank file beside the program at `cpp`: `solve.cpp` keeps its bank in
/// `solve.cpp.fbk`.
pub open spec fn sidecar_of(cpp: Seq<char>) -> Seq<char> {
    path_set_extension(cpp, sidecar_extension_of(path_extension(cpp)))
}

/// The bank file beside the program at `cpp`.
pub fn sidecar_path(cpp: &str) -> (p: String)
    ensures
        p@ == sidecar_of(cpp@),
{
    let ext = extension_of(cpp);
    let new_ext = match &ext {
        Some(e) => sidecar_extension(Some(e.as_str())),
        None => sidecar_extension(None),
    };
    proof {
        reveal_strlit(".fbk");
        reveal_strlit("fbk");
        let n = new_ext@;
        assert forall|i: int| 0 <= i < n.len() implies n[i] != '/' by {
            if let Some(e) = ext {
                if i < e@.len() {
                    assert(n[i] == e@[i]);
                    if e@[i] == '/' {
                        assert(e@.contains('/'));
                    }
                } else {
                    assert(n[i] == ".fbk"@[i - e@.len()]);
                }
            }
        }
    }
    set_extension(cpp, new_ext.as_str())
}

/// The file a bank is first written to before it replaces the bank file.
pub open spec fn temp_of(path: Seq<char>) -> Seq<char> {
    path_set_extension(path, "fbk.tmp"@)
}

/// The file a bank is first written to before it replaces the bank file.
pub fn temp_path(path: &str) -> (p: String)
    ensures
        p@ == temp_of(path@),
{
    proof {
        reveal_strlit("fbk.tmp");
        assert forall|i: int| 0 <= i < "fbk.tmp"@.len() implies "fbk.tmp"@[i] != '/' by {}
    }
    set_extension(path, "fbk.tmp")
}

/// The name a new bank gets: the program's file name, or `program.cpp`.
pub open spec fn bank_name_of(cpp: Seq<char>) -> Seq<char> {
    match path_file_name(cpp) {
        Some(n) => n,
        None => "program.cpp"@,
    }
}

/// Opens the bank of the program at `cpp`: `stored` is what reading the
/// sidecar file gave, or `None` where that file does not exist. A missing file
/// gives a new, empty bank named after the program.
pub fn load_or_new<E>(cpp: &str, stored: Option<Result<Bank, E>>) -> (r: Result<(String, Bank), E>)
    ensures
        match stored {
            Some(Ok(b)) => r matches Ok((p, b2)) && p@ == sidecar_of(cpp@) && b2 == b,
            Some(Err(e)) => r matches Err(e2) && e2 == e,
            None => r matches Ok((p, b)) && p@ == sidecar_of(cpp@) && b.source_name@
                == bank_name_of(cpp@) && b.next_id == 1 && b.cases@.len() == 0,
        },
{
    let path = sidecar_path(cpp);
    let name = match file_name_of(cpp) {
        Some(n) => n,
        None => String::from_str("program.cpp"),
    };
    match stored {
        Some(Ok(bank)) => Ok((path, bank)),
        Some(Err(e)) => Err(e),
        None => Ok((path, Bank::new(name.as_str()))),
    }
}

/// The unit a duration is shown in.
#[derive(Debug, Clone, Copy, PartialEq, Eq, Structural)]
pub enum TimeUnit {
    Nanos,
    Micros,
    Millis,
    Secs,
}

/// The unit for `ns` nanoseconds: below 1 µs in ns, below 1 ms in µs, below
/// 1 s in ms, else in s.
pub open spec fn unit_for(ns: u64) -> TimeUnit {
    if ns < 1_000 {
        TimeUnit::Nanos
    } else if ns < 1_000_000 {
        TimeUnit::Micros
    } else if ns < 1_000_000_000 {
        TimeUnit::Millis
    } else {
        TimeUnit::Secs
    }
}

/// The unit a duration of `ns` nanoseconds is shown in.
pub fn duration_unit(ns: u64) -> (u: TimeUnit)
    ensures
        u == unit_for(ns),
{
    if ns < 1_000 {
        TimeUnit::Nanos
    } else if ns < 1_000_000 {
        TimeUnit::Micros
    } else if ns < 1_000_000_000 {
        TimeUnit::Millis
    } else {
        TimeUnit::Secs
    }
}

} // verus!

//! Collision resolution. Records are sorted by capture date and name,
//! then each is assigned a destination inside its date folder: the first
//! free candidate name wins, an on-disk file of equal size makes the
//! record a duplicate to skip, and (when enabled) an on-disk file of
//! different size under the unmodified original name is overwritten.
//! Probing the target tree on disk happens outside this crate; analysis
//! works against a [`TargetIndex`] snapshot handed in by the caller.

use vstd::prelude::*;
use vstd::relations::sorted_by;
use vstd::relations::total_ordering;
use crate::dates::folder_chars;
use crate::names::dec_digits;
use crate::names::dec_string;
use crate::names::ext_chars;
use crate::names::find_last_dot;
use crate::names::lemma_dec_digits_injective;
use crate::names::lemma_dec_digits_val;
use crate::names::lemma_last_dot_in_range;
use crate::names::lemma_lex_le_antisymmetric;
use crate::names::lemma_lex_le_connected;
use crate::names::lemma_lex_le_reflexive;
use crate::names::lemma_lex_le_transitive;
use crate::names::lex_le;
use crate::names::stem_chars;
use crate::names::str_eq;
use crate::scanner::Disposition;
use crate::scanner::MediaFile;
use crate::scanner::MediaFileView;
use crate::scanner::MediaKind;
use crate::scanner::record_views;

verus! {

// ---------------------------------------------------------------------------
// Snapshot of the target tree
// ---------------------------------------------------------------------------

/// One file already present in the target tree: its date folder name,
/// its file name, and its byte size.
pub struct DiskEntry {
    pub folder: String,
    pub name: String,
    pub size: u64,
}

/// The mathematical shadow of a [`DiskEntry`].
#[verifier::ext_equal]
pub ghost struct DiskEntryView {
    pub folder: Seq<char>,
    pub name: Seq<char>,
    pub size: u64,
}

impl View for DiskEntry {
    type V = DiskEntryView;

    open spec fn view(&self) -> DiskEntryView {
        DiskEntryView { folder: self.folder@, name: self.name@, size: self.size }
    }
}

/// What the analysis believes the target tree already holds, listed as
/// (folder, name, size) entries. The caller builds it by listing the
/// target's date folders before analysis begins.
pub struct TargetIndex {
    entries: Vec<DiskEntry>,
}

impl View for TargetIndex {
    type V = Seq<DiskEntryView>;

    closed spec fn view(&self) -> Seq<DiskEntryView> {
        self.entries@.map_values(|e: DiskEntry| e@)
    }
}

/// The size recorded for `name` in `folder`, by first match.
pub open spec fn disk_size(disk: Seq<DiskEntryView>, folder: Seq<char>, name: Seq<char>) -> Option<
    u64,
>
    decreases disk.len(),
{
    if disk.len() == 0 {
        None
    } else if disk[0].folder == folder && disk[0].name == name {
        Some(disk[0].size)
    } else {
        disk_size(disk.drop_first(), folder, name)
    }
}

impl TargetIndex {
    /// An empty snapshot: nothing is known to exist on disk.
    pub fn new() -> (r: TargetIndex)
        ensures
            r@ == Seq::<DiskEntryView>::empty(),
    {
        let r = TargetIndex { entries: Vec::new() };
        proof {
            assert(r@ =~= Seq::<DiskEntryView>::empty());
        }
        r
    }

    /// Records that `folder/name` exists on disk with `size` bytes.
    pub fn add(&mut self, folder: String, name: String, size: u64)
        ensures
            final(self)@ == old(self)@.push(DiskEntryView { folder: folder@, name: name@, size }),
    {
        let ghost pre = old(self)@;
        let e = DiskEntry { folder, name, size };
        let ghost ev = e@;
        self.entries.push(e);
        proof {
            assert(self@ =~= pre.push(ev));
        }
    }

    /// Looks `folder/name` up in the snapshot.
    fn lookup(&self, folder: &str, name: &str) -> (r: Option<u64>)
        ensures
            r == disk_size(self@, folder@, name@),
    {
        let mut i: usize = 0;
        proof {
            assert(self@.skip(0) =~= self@);
        }
        while i < self.entries.len()
            invariant
                self@.len() == self.entries@.len(),
                i <= self.entries@.len(),
                disk_size(self@, folder@, name@) == disk_size(
                    self@.skip(i as int),
                    folder@,
                    name@,
                ),
            decreases self.entries@.len() - i,
        {
            let e = &self.entries[i];
            proof {
                assert(self@[i as int] == self.entries@[i as int]@);
                assert(self@.skip(i as int)[0] == self@[i as int]);
                assert(self@.skip(i as int).drop_first() =~= self@.skip(i + 1));
            }
            if str_eq(e.folder.as_str(), folder) && str_eq(e.name.as_str(), name) {
                return Some(e.size);
            }
            i = i + 1;
        }
        proof {
            assert(self@.skip(self@.len() as int).len() == 0);
        }
        None
    }
}

proof fn lemma_disk_some_has_entry(disk: Seq<DiskEntryView>, folder: Seq<char>, name: Seq<char>)
    requires
        disk_size(disk, folder, name) is Some,
    ensures
        exists|i: int|
            0 <= i < disk.len() && (#[trigger] disk[i]).folder == folder && disk[i].name == name,
    decreases disk.len(),
{
    if disk.len() > 0 {
        if disk[0].folder == folder && disk[0].name == name {
        } else {
            lemma_disk_some_has_entry(disk.drop_first(), folder, name);
            let i = choose|i: int|
                0 <= i < disk.drop_first().len() && (#[trigger] disk.drop_first()[i]).folder
                    == folder && disk.drop_first()[i].name == name;
            assert(disk[i + 1] == disk.drop_first()[i]);
        }
    }
}

// ---------------------------------------------------------------------------
// Names claimed during the current run
// ---------------------------------------------------------------------------

/// A destination name claimed by an earlier record of this run.
pub struct Claim {
    pub folder: String,
    pub name: String,
}

impl View for Claim {
    type V = (Seq<char>, Seq<char>);

    open spec fn view(&self) -> (Seq<char>, Seq<char>) {
        (self.folder@, self.name@)
    }
}

/// The views of a sequence of claims.
pub open spec fn claim_views(s: Seq<Claim>) -> Seq<(Seq<char>, Seq<char>)> {
    s.map_values(|c: Claim| c@)
}

/// Whether `name` in `folder` was already claimed during this run.
pub open spec fn claimed(
    claims: Seq<(Seq<char>, Seq<char>)>,
    folder: Seq<char>,
    name: Seq<char>,
) -> bool {
    exists|i: int| 0 <= i < claims.len() && (#[trigger] claims[i]) == (folder, name)
}

/// Decides [`claimed`] against the claim list of the current run.
fn claims_contain(claims: &Vec<Claim>, folder: &str, name: &str) -> (r: bool)
    ensures
        r == claimed(claim_views(claims@), folder@, name@),
{
    let ghost cv = claim_views(claims@);
    let mut i: usize = 0;
    while i < claims.len()
        invariant
            cv == claim_views(claims@),
            cv.len() == claims@.len(),
            i <= claims@.len(),
            forall|p: int| 0 <= p < i ==> (#[trigger] cv[p]) != (folder@, name@),
        decreases claims@.len() - i,
    {
        let c = &claims[i];
        proof {
            assert(cv[i as int] == claims@[i as int]@);
        }
        if str_eq(c.folder.as_str(), folder) && str_eq(c.name.as_str(), name) {
            return true;
        }
        i = i + 1;
    }
    false
}

// ---------------------------------------------------------------------------
// Candidate names
// ---------------------------------------------------------------------------

/// The `n`-th candidate name for a record: the original name for `n == 0`,
/// and `stem_n.ext` (or `stem_n` when the name has no extension) after.
pub open spec fn candidate_chars(original: Seq<char>, n: nat) -> Seq<char> {
    if n == 0 {
        original
    } else {
        stem_chars(original) + seq!['_'] + dec_digits(n) + (if ext_chars(original).len() > 0 {
            seq!['.'] + ext_chars(original)
        } else {
            Seq::empty()
        })
    }
}

/// Distinct attempt counters give distinct candidate names.
pub proof fn lemma_candidate_injective(original: Seq<char>, n: nat, m: nat)
    requires
        n != m,
    ensures
        candidate_chars(original, n) != candidate_chars(original, m),
{
    let stem = stem_chars(original);
    let ext = ext_chars(original);
    let suffix = if ext.len() > 0 {
        seq!['.'] + ext
    } else {
        Seq::<char>::empty()
    };
    lemma_last_dot_in_range(original);
    if n == 0 || m == 0 {
        let k = if n == 0 {
            m
        } else {
            n
        };
        lemma_dec_digits_val(k);
        // The renamed variant is strictly longer than the original name.
        match crate::names::last_dot(original) {
            Some(d) => {
                assert(original.len() == stem.len() + 1 + ext.len());
                assert(candidate_chars(original, k).len() == stem.len() + 1 + dec_digits(k).len()
                    + suffix.len());
            },
            None => {
                assert(original.len() == stem.len());
            },
        }
        assert(candidate_chars(original, k).len() > original.len());
    } else {
        lemma_dec_digits_val(n);
        lemma_dec_digits_val(m);
        if dec_digits(n).len() != dec_digits(m).len() {
            assert(candidate_chars(original, n).len() != candidate_chars(original, m).len());
        } else {
            if candidate_chars(original, n) == candidate_chars(original, m) {
                let pre = stem + seq!['_'];
                let cn = candidate_chars(original, n);
                let cm = candidate_chars(original, m);
                assert(cn =~= pre + dec_digits(n) + suffix);
                assert(cm =~= pre + dec_digits(m) + suffix);
                assert(cn.subrange(pre.len() as int, (pre.len() + dec_digits(n).len()) as int) =~= dec_digits(
                    n,
                ));
                assert(cm.subrange(pre.len() as int, (pre.len() + dec_digits(m).len()) as int) =~= dec_digits(
                    m,
                ));
                lemma_dec_digits_injective(n, m);
                assert(false);
            }
        }
    }
}

// ---------------------------------------------------------------------------
// The resolution model
// ---------------------------------------------------------------------------

/// Everything one record's resolution depends on: the record's name and
/// size, its date folder, the names claimed so far in this run, the disk
/// snapshot, and the overwrite setting.
#[verifier::ext_equal]
pub ghost struct ResolveCtx {
    pub name: Seq<char>,
    pub size: u64,
    pub folder: Seq<char>,
    pub claims: Seq<(Seq<char>, Seq<char>)>,
    pub disk: Seq<DiskEntryView>,
    pub overwrite: bool,
}

/// What happens at attempt `n`: the disposition and accepted name when
/// the candidate settles the record, `None` when it collides and the
/// resolver must move to the next candidate.
pub open spec fn attempt_outcome(ctx: ResolveCtx, n: nat) -> Option<(Disposition, Seq<char>)> {
    let c = candidate_chars(ctx.name, n);
    let od = disk_size(ctx.disk, ctx.folder, c);
    if od is None && !claimed(ctx.claims, ctx.folder, c) {
        Some((Disposition::Upload, c))
    } else if od matches Some(sz) && sz == ctx.size {
        Some((Disposition::Skip, c))
    } else if od is Some && ctx.overwrite && n == 0 {
        Some((Disposition::Overwrite, c))
    } else {
        None
    }
}

/// Attempt `n` settles the record and every earlier attempt collided:
/// `n` is the attempt the resolver accepts.
pub open spec fn resolves_at(ctx: ResolveCtx, n: nat) -> bool {
    &&& attempt_outcome(ctx, n) is Some
    &&& forall|m: nat| m < n ==> (#[trigger] attempt_outcome(ctx, m)) is None
}

/// The accepted attempt is unique.
pub proof fn lemma_resolves_at_unique(ctx: ResolveCtx, n1: nat, n2: nat)
    requires
        resolves_at(ctx, n1),
        resolves_at(ctx, n2),
    ensures
        n1 == n2,
{
    if n1 < n2 {
        assert(attempt_outcome(ctx, n1) is None);
    }
    if n2 < n1 {
        assert(attempt_outcome(ctx, n2) is None);
    }
}

/// Below any settling attempt there is an accepted one.
proof fn lemma_least_settling(ctx: ResolveCtx, n: nat)
    requires
        attempt_outcome(ctx, n) is Some,
    ensures
        exists|k: nat| k <= n && #[trigger] resolves_at(ctx, k),
    decreases n,
{
    if forall|m: nat| m < n ==> (#[trigger] attempt_outcome(ctx, m)) is None {
        assert(resolves_at(ctx, n));
    } else {
        let m = choose|m: nat| m < n && !((#[trigger] attempt_outcome(ctx, m)) is None);
        lemma_least_settling(ctx, m);
        let k = choose|k: nat| k <= m && #[trigger] resolves_at(ctx, k);
        assert(k <= n && resolves_at(ctx, k));
    }
}

proof fn lemma_remove_keeps_contains<A>(s: Seq<A>, idx: int, x: A)
    requires
        0 <= idx < s.len(),
        s.contains(x),
        x != s[idx],
    ensures
        s.remove(idx).contains(x),
{
    let p = choose|p: int| 0 <= p < s.len() && s[p] == x;
    if p < idx {
        assert(s.remove(idx)[p] == x);
    } else {
        assert(s.remove(idx)[p - 1] == x);
    }
}

/// A sequence that contains the first `k + 1` candidate names (pairwise
/// distinct) holds more than `k` elements.
proof fn lemma_candidates_need_room(original: Seq<char>, s: Seq<Seq<char>>, k: nat)
    requires
        forall|j: nat| j <= k ==> s.contains(#[trigger] candidate_chars(original, j)),
    ensures
        s.len() > k,
    decreases k,
{
    if k == 0 {
        assert(s.contains(candidate_chars(original, 0)));
    } else {
        let ck = candidate_chars(original, k);
        assert(s.contains(ck));
        let idx = choose|i: int| 0 <= i < s.len() && s[i] == ck;
        let s2 = s.remove(idx);
        assert forall|j: nat| j <= (k - 1) as nat implies s2.contains(
            #[trigger] candidate_chars(original, j),
        ) by {
            lemma_candidate_injective(original, j, k);
            assert(s.contains(candidate_chars(original, j)));
            lemma_remove_keeps_contains(s, idx, candidate_chars(original, j));
        }
        lemma_candidates_need_room(original, s2, (k - 1) as nat);
    }
}

/// Some attempt below the total number of claims and disk entries is
/// accepted: the resolver cannot collide forever.
pub proof fn lemma_resolution_exists(ctx: ResolveCtx)
    ensures
        exists|n: nat|
            n <= ctx.claims.len() + ctx.disk.len() && #[trigger] resolves_at(ctx, n),
{
    let bound = (ctx.claims.len() + ctx.disk.len()) as nat;
    if forall|j: nat| j <= bound ==> (#[trigger] attempt_outcome(ctx, j)) is None {
        // Every colliding candidate is a claimed or on-disk name, and
        // there are not enough of those for `bound + 1` distinct names.
        let names = ctx.claims.map_values(|c: (Seq<char>, Seq<char>)| c.1) + ctx.disk.map_values(
            |d: DiskEntryView| d.name,
        );
        assert(names.len() == bound);
        assert forall|j: nat| j <= bound implies names.contains(
            #[trigger] candidate_chars(ctx.name, j),
        ) by {
            let c = candidate_chars(ctx.name, j);
            assert(attempt_outcome(ctx, j) is None);
            if disk_size(ctx.disk, ctx.folder, c) is Some {
                lemma_disk_some_has_entry(ctx.disk, ctx.folder, c);
                let i = choose|i: int|
                    0 <= i < ctx.disk.len() && (#[trigger] ctx.disk[i]).folder == ctx.folder
                        && ctx.disk[i].name == c;
                assert(names[ctx.claims.len() + i] == c);
            } else {
                assert(claimed(ctx.claims, ctx.folder, c));
                let i = choose|i: int|
                    0 <= i < ctx.claims.len() && (#[trigger] ctx.claims[i]) == (ctx.folder, c);
                assert(names[i] == c);
            }
        }
        lemma_candidates_need_room(ctx.name, names, bound);
        assert(false);
    } else {
        let j = choose|j: nat| j <= bound && !((#[trigger] attempt_outcome(ctx, j)) is None);
        lemma_least_settling(ctx, j);
        let k = choose|k: nat| k <= j && #[trigger] resolves_at(ctx, k);
        assert(k <= bound && resolves_at(ctx, k));
    }
}

// ---------------------------------------------------------------------------
// The resolver
// ---------------------------------------------------------------------------

/// Assigns destinations and dispositions to scanned records.
pub struct Analyzer;

impl Analyzer {
    /// The `attempt`-th candidate name for a record: `stem_N.ext`
    /// (`stem_N` when there is no extension), splitting at the final dot;
    /// attempt `0` is the original name itself.
    pub fn make_unique_name(original_name: &str, attempt: usize) -> (r: String)
        ensures
            r@ == candidate_chars(original_name@, attempt as nat),
    {
        proof {
            reveal_strlit("_");
            reveal_strlit(".");
        }
        if attempt == 0 {
            return String::from_str(original_name);
        }
        let n = original_name.unicode_len();
        let number = dec_string(attempt as u64);
        match find_last_dot(original_name) {
            Some(d) => {
                proof {
                    lemma_last_dot_in_range(original_name@);
                }
                let stem = original_name.substring_char(0, d);
                let ext = original_name.substring_char(d + 1, n);
                let mut r = String::from_str(stem);
                r.append("_");
                r.append(number.as_str());
                if ext.unicode_len() > 0 {
                    r.append(".");
                    r.append(ext);
                }
                proof {
                    assert(stem@ == stem_chars(original_name@));
                    assert(ext@ == ext_chars(original_name@));
                    assert(r@ =~= candidate_chars(original_name@, attempt as nat));
                }
                r
            },
            None => {
                let mut r = String::from_str(original_name);
                r.append("_");
                r.append(number.as_str());
                proof {
                    assert(stem_chars(original_name@) == original_name@);
                    assert(ext_chars(original_name@).len() == 0);
                    assert(r@ =~= candidate_chars(original_name@, attempt as nat));
                }
                r
            },
        }
    }
}

/// Resolves one record against the disk snapshot and the claims made so
/// far: finds the accepted attempt and its disposition and name.
fn resolve_one(
    filename: &str,
    size: u64,
    folder: &str,
    claims: &Vec<Claim>,
    index: &TargetIndex,
    overwrite: bool,
) -> (r: (Disposition, String, usize))
    requires
        claims@.len() + index@.len() < usize::MAX,
    ensures
        ({
            let ctx = ResolveCtx {
                name: filename@,
                size,
                folder: folder@,
                claims: claim_views(claims@),
                disk: index@,
                overwrite,
            };
            &&& resolves_at(ctx, r.2 as nat)
            &&& attempt_outcome(ctx, r.2 as nat) == Some((r.0, r.1@))
        }),
{
    let ghost ctx = ResolveCtx {
        name: filename@,
        size,
        folder: folder@,
        claims: claim_views(claims@),
        disk: index@,
        overwrite,
    };
    proof {
        lemma_resolution_exists(ctx);
        assert(ctx.claims.len() == claims@.len());
    }
    let ghost nstar = choose|n: nat|
        n <= ctx.claims.len() + ctx.disk.len() && #[trigger] resolves_at(ctx, n);
    let mut attempt: usize = 0;
    let mut cand = String::from_str(filename);
    loop
        invariant
            ctx == (ResolveCtx {
                name: filename@,
                size,
                folder: folder@,
                claims: claim_views(claims@),
                disk: index@,
                overwrite,
            }),
            claims@.len() + index@.len() < usize::MAX,
            resolves_at(ctx, nstar),
            nstar <= ctx.claims.len() + ctx.disk.len(),
            attempt as nat <= nstar,
            cand@ == candidate_chars(ctx.name, attempt as nat),
            forall|m: nat| m < attempt as nat ==> (#[trigger] attempt_outcome(ctx, m)) is None,
        decreases nstar - attempt as nat,
    {
        let od = index.lookup(folder, cand.as_str());
        let used = claims_contain(claims, folder, cand.as_str());
        if od.is_none() && !used {
            proof {
                assert(attempt_outcome(ctx, attempt as nat) == Some(
                    (Disposition::Upload, cand@),
                ));
            }
            return (Disposition::Upload, cand, attempt);
        }
        let mut settled: Option<Disposition> = None;
        match od {
            Some(sz) => {
                if sz == size {
                    settled = Some(Disposition::Skip);
                } else if overwrite && attempt == 0 {
                    settled = Some(Disposition::Overwrite);
                }
            },
            None => {},
        }
        match settled {
            Some(dispo) => {
                proof {
                    assert(attempt_outcome(ctx, attempt as nat) == Some((dispo, cand@)));
                }
                return (dispo, cand, attempt);
            },
            None => {},
        }
        proof {
            assert(attempt_outcome(ctx, attempt as nat) is None);
            if attempt as nat == nstar {
                assert(attempt_outcome(ctx, nstar) is Some);
                assert(false);
            }
        }
        attempt = attempt + 1;
        cand = Analyzer::make_unique_name(filename, attempt);
    }
}

// ---------------------------------------------------------------------------
// The record order
// ---------------------------------------------------------------------------

/// Sort rank of a media kind.
pub open spec fn kind_rank(k: MediaKind) -> int {
    match k {
        MediaKind::Photo => 0,
        MediaKind::Video => 1,
    }
}

/// Sort rank of a disposition.
pub open spec fn dispo_rank(d: Disposition) -> int {
    match d {
        Disposition::Pending => 0,
        Disposition::Upload => 1,
        Disposition::Overwrite => 2,
        Disposition::Skip => 3,
    }
}

/// The order records are resolved in: capture date first, then file name;
/// the remaining fields only break ties, making the order total so that a
/// record multiset has exactly one sorted arrangement.
pub open spec fn rec_le(a: MediaFileView, b: MediaFileView) -> bool {
    if a.date.secs != b.date.secs {
        a.date.secs < b.date.secs
    } else if a.filename != b.filename {
        lex_le(a.filename, b.filename)
    } else if a.path != b.path {
        lex_le(a.path, b.path)
    } else if a.size != b.size {
        a.size < b.size
    } else if a.date.year != b.date.year {
        a.date.year < b.date.year
    } else if a.date.month != b.date.month {
        a.date.month < b.date.month
    } else if a.date.day != b.date.day {
        a.date.day < b.date.day
    } else if kind_rank(a.file_type) != kind_rank(b.file_type) {
        kind_rank(a.file_type) < kind_rank(b.file_type)
    } else if dispo_rank(a.status) != dispo_rank(b.status) {
        dispo_rank(a.status) < dispo_rank(b.status)
    } else if a.target_path != b.target_path {
        lex_le(a.target_path, b.target_path)
    } else {
        true
    }
}

/// [`rec_le`] as a relation value.
pub open spec fn rec_leq() -> spec_fn(MediaFileView, MediaFileView) -> bool {
    |a: MediaFileView, b: MediaFileView| rec_le(a, b)
}

pub proof fn lemma_rec_le_connected(a: MediaFileView, b: MediaFileView)
    ensures
        rec_le(a, b) || rec_le(b, a),
{
    lemma_lex_le_connected(a.filename, b.filename);
    lemma_lex_le_connected(a.path, b.path);
    lemma_lex_le_connected(a.target_path, b.target_path);
}

pub proof fn lemma_rec_le_antisymmetric(a: MediaFileView, b: MediaFileView)
    requires
        rec_le(a, b),
        rec_le(b, a),
    ensures
        a == b,
{
    if a.filename == b.filename && a.path == b.path && a.target_path == b.target_path {
        assert(a =~= b);
    } else if a.filename != b.filename {
        lemma_lex_le_antisymmetric(a.filename, b.filename);
    } else if a.path != b.path {
        lemma_lex_le_antisymmetric(a.path, b.path);
    } else {
        lemma_lex_le_antisymmetric(a.target_path, b.target_path);
    }
}

pub proof fn lemma_rec_le_transitive(a: MediaFileView, b: MediaFileView, c: MediaFileView)
    requires
        rec_le(a, b),
        rec_le(b, c),
    ensures
        rec_le(a, c),
{
    if a.date.secs != c.date.secs {
    } else {
        assert(a.date.secs == b.date.secs && b.date.secs == c.date.secs);
        lemma_lex_le_reflexive(a.filename);
        lemma_lex_le_reflexive(b.filename);
        assert(lex_le(a.filename, b.filename));
        assert(lex_le(b.filename, c.filename));
        lemma_lex_le_transitive(a.filename, b.filename, c.filename);
        if a.filename != c.filename {
        } else {
            lemma_lex_le_antisymmetric(a.filename, b.filename);
            assert(a.filename == b.filename && b.filename == c.filename);
            lemma_lex_le_reflexive(a.path);
            lemma_lex_le_reflexive(b.path);
            assert(lex_le(a.path, b.path));
            assert(lex_le(b.path, c.path));
            lemma_lex_le_transitive(a.path, b.path, c.path);
            if a.path != c.path {
            } else {
                lemma_lex_le_antisymmetric(a.path, b.path);
                assert(a.path == b.path && b.path == c.path);
                if a.size != c.size || a.date.year != c.date.year || a.date.month != c.date.month
                    || a.date.day != c.date.day || kind_rank(a.file_type) != kind_rank(c.file_type)
                    || dispo_rank(a.status) != dispo_rank(c.status) {
                } else {
                    assert(a.size == b.size && b.size == c.size);
                    assert(a.date.year == b.date.year && b.date.year == c.date.year);
                    assert(a.date.month == b.date.month && b.date.month == c.date.month);
                    assert(a.date.day == b.date.day && b.date.day == c.date.day);
                    assert(kind_rank(a.file_type) == kind_rank(b.file_type) && kind_rank(
                        b.file_type,
                    ) == kind_rank(c.file_type));
                    assert(dispo_rank(a.status) == dispo_rank(b.status) && dispo_rank(b.status)
                        == dispo_rank(c.status));
                    lemma_lex_le_reflexive(a.target_path);
                    lemma_lex_le_reflexive(b.target_path);
                    assert(lex_le(a.target_path, b.target_path));
                    assert(lex_le(b.target_path, c.target_path));
                    lemma_lex_le_transitive(a.target_path, b.target_path, c.target_path);
                }
            }
        }
    }
}

/// The record order is a total ordering.
pub proof fn lemma_rec_le_total_ordering()
    ensures
        total_ordering(rec_leq()),
{
    let r = rec_leq();
    assert forall|x: MediaFileView| #[trigger] r(x, x) by {
        lemma_rec_le_connected(x, x);
    }
    assert forall|x: MediaFileView, y: MediaFileView| #[trigger] r(x, y) && #[trigger] r(
        y,
        x,
    ) implies x == y by {
        lemma_rec_le_antisymmetric(x, y);
    }
    assert forall|x: MediaFileView, y: MediaFileView, z: MediaFileView|
        #[trigger] r(x, y) && #[trigger] r(y, z) implies r(x, z) by {
        lemma_rec_le_transitive(x, y, z);
    }
    assert forall|x: MediaFileView, y: MediaFileView| #[trigger] r(x, y) || #[trigger] r(
        y,
        x,
    ) by {
        lemma_rec_le_connected(x, y);
    }
}

/// Decides [`rec_le`] on two records.
fn rec_le_exec(a: &MediaFile, b: &MediaFile) -> (r: bool)
    ensures
        r == rec_le(a@, b@),
{
    if a.date.secs != b.date.secs {
        return a.date.secs < b.date.secs;
    }
    if !str_eq(a.filename.as_str(), b.filename.as_str()) {
        return crate::names::str_le(a.filename.as_str(), b.filename.as_str());
    }
    if !str_eq(a.path.as_str(), b.path.as_str()) {
        return crate::names::str_le(a.path.as_str(), b.path.as_str());
    }
    if a.size != b.size {
        return a.size < b.size;
    }
    if a.date.year != b.date.year {
        return a.date.year < b.date.year;
    }
    if a.date.month != b.date.month {
        return a.date.month < b.date.month;
    }
    if a.date.day != b.date.day {
        return a.date.day < b.date.day;
    }
    let ka: u8 = match a.file_type {
        MediaKind::Photo => 0,
        MediaKind::Video => 1,
    };
    let kb: u8 = match b.file_type {
        MediaKind::Photo => 0,
        MediaKind::Video => 1,
    };
    if ka != kb {
        return ka < kb;
    }
    let da: u8 = match a.status {
        Disposition::Pending => 0,
        Disposition::Upload => 1,
        Disposition::Overwrite => 2,
        Disposition::Skip => 3,
    };
    let db: u8 = match b.status {
        Disposition::Pending => 0,
        Disposition::Upload => 1,
        Disposition::Overwrite => 2,
        Disposition::Skip => 3,
    };
    if da != db {
        return da < db;
    }
    if !str_eq(a.target_path.as_str(), b.target_path.as_str()) {
        return crate::names::str_le(a.target_path.as_str(), b.target_path.as_str());
    }
    true
}

// ---------------------------------------------------------------------------
// Sorting
// ---------------------------------------------------------------------------

proof fn lemma_record_views_remove(s: Seq<MediaFile>, i: int)
    requires
        0 <= i < s.len(),
    ensures
        record_views(s.remove(i)) =~= record_views(s).remove(i),
{
    assert forall|j: int| 0 <= j < s.remove(i).len() implies record_views(s.remove(i))[j]
        == record_views(s).remove(i)[j] by {
        if j < i {
            assert(s.remove(i)[j] == s[j]);
        } else {
            assert(s.remove(i)[j] == s[j + 1]);
        }
    }
}

proof fn lemma_record_views_insert(s: Seq<MediaFile>, i: int, x: MediaFile)
    requires
        0 <= i <= s.len(),
    ensures
        record_views(s.insert(i, x)) =~= record_views(s).insert(i, x@),
{
    assert forall|j: int| 0 <= j < s.insert(i, x).len() implies record_views(s.insert(i, x))[j]
        == record_views(s).insert(i, x@)[j] by {
        if j < i {
            assert(s.insert(i, x)[j] == s[j]);
        } else if j == i {
            assert(s.insert(i, x)[j] == x);
        } else {
            assert(s.insert(i, x)[j] == s[j - 1]);
        }
    }
}

/// Sorting leaves the record multiset unchanged and orders it by
/// [`rec_le`].
pub open spec fn sort_post(pre: Seq<MediaFile>, post: Seq<MediaFile>) -> bool {
    &&& post.len() == pre.len()
    &&& record_views(post).to_multiset() == record_views(pre).to_multiset()
    &&& sorted_by(record_views(post), rec_leq())
}

impl Analyzer {
    /// Sorts records by capture date, then file name (then the remaining
    /// fields as tie breaks), so that resolution runs in a reproducible
    /// order over any discovery order.
    pub fn sort_records(files: &mut Vec<MediaFile>)
        ensures
            sort_post(old(files)@, final(files)@),
    {
        broadcast use vstd::seq_lib::group_to_multiset_ensures;
        broadcast use vstd::multiset::group_multiset_axioms;

        let ghost pre = old(files)@;
        if files.len() <= 1 {
            return;
        }
        let mut i: usize = 1;
        proof {
            assert(record_views(files@).take(1).len() == 1);
        }
        while i < files.len()
            invariant
                files@.len() == pre.len(),
                1 <= i <= files@.len(),
                record_views(files@).to_multiset() == record_views(pre).to_multiset(),
                sorted_by(record_views(files@).take(i as int), rec_leq()),
            decreases files@.len() - i,
        {
            let ghost before = files@;
            let ghost v0 = record_views(before);
            let ghost xv = before[i as int]@;
            let mut k: usize = i;
            while k > 0 && !rec_le_exec(&files[k - 1], &files[i])
                invariant
                    files@ == before,
                    i < before.len(),
                    v0 == record_views(before),
                    xv == before[i as int]@,
                    k <= i,
                    forall|q: int| k <= q < i ==> rec_le(xv, #[trigger] v0[q]),
                decreases k,
            {
                proof {
                    assert(v0[k - 1] == before[k - 1]@);
                    lemma_rec_le_connected(v0[k - 1], xv);
                }
                k = k - 1;
            }
            proof {
                assert(k == 0 || rec_le(v0[k - 1], xv));
            }
            let x = files.remove(i);
            files.insert(k, x);
            proof {
                let after = files@;
                let v1 = record_views(before.remove(i as int));
                let v2 = record_views(after);
                lemma_record_views_remove(before, i as int);
                lemma_record_views_insert(before.remove(i as int), k as int, x);
                assert(v1 =~= v0.remove(i as int));
                assert(v2 =~= v1.insert(k as int, xv));
                assert(v0[i as int] == xv);

                // The multiset is preserved: removing and reinserting one
                // element is the identity, count for count.
                let w = v0.remove(i as int);
                vstd::seq_lib::to_multiset_remove(v0, i as int);
                vstd::seq_lib::to_multiset_insert(w, k as int, xv);
                vstd::seq_lib::to_multiset_contains(v0, xv);
                assert(v1 == w);
                assert(v2 == w.insert(k as int, xv));
                assert(v2.to_multiset() == v0.to_multiset().remove(xv).insert(xv));
                assert(v0.contains(xv));
                assert(v0.to_multiset().count(xv) > 0);
                assert(v0.to_multiset().remove(xv).insert(xv) =~= v0.to_multiset());
                assert(record_views(after).to_multiset() == record_views(pre).to_multiset());

                // The sorted prefix grew by one.
                let t_old = v0.take(i as int);
                let t_new = v2.take(i + 1);
                assert forall|p: int, q: int| 0 <= p < q < i + 1 implies rec_leq()(
                    #[trigger] t_new[p],
                    #[trigger] t_new[q],
                ) by {
                    assert(t_new[p] == v2[p] && t_new[q] == v2[q]);
                    if q < k {
                        assert(v2[p] == v0[p] && v2[q] == v0[q]);
                        assert(rec_leq()(t_old[p], t_old[q]));
                    } else if q == k {
                        assert(v2[q] == xv);
                        assert(v2[p] == v0[p]);
                        if p == k - 1 {
                            assert(rec_le(v0[p], xv));
                        } else {
                            assert(rec_leq()(t_old[p], t_old[k - 1]));
                            lemma_rec_le_transitive(v0[p], v0[k - 1], xv);
                        }
                    } else if p < k {
                        assert(v2[p] == v0[p] && v2[q] == v0[q - 1]);
                        assert(rec_leq()(t_old[p], t_old[q - 1]));
                    } else if p == k {
                        assert(v2[p] == xv && v2[q] == v0[q - 1]);
                        assert(rec_le(xv, v0[q - 1]));
                    } else {
                        assert(v2[p] == v0[p - 1] && v2[q] == v0[q - 1]);
                        assert(rec_leq()(t_old[p - 1], t_old[q - 1]));
                    }
                }
                assert(sorted_by(v2.take(i + 1), rec_leq()));
            }
            i = i + 1;
        }
        proof {
            assert(record_views(files@).take(files@.len() as int) =~= record_views(files@));
        }
    }
}

// ---------------------------------------------------------------------------
// Resolution over a whole batch
// ---------------------------------------------------------------------------

/// The destination date folder of a record.
pub open spec fn rec_folder(r: MediaFileView) -> Seq<char> {
    folder_chars(r.date)
}

/// The resolution context a record sees, given the claims made so far.
pub open spec fn ctx_of(
    r: MediaFileView,
    claims: Seq<(Seq<char>, Seq<char>)>,
    disk: Seq<DiskEntryView>,
    overwrite: bool,
) -> ResolveCtx {
    ResolveCtx { name: r.filename, size: r.size, folder: rec_folder(r), claims, disk, overwrite }
}

/// The attempt the resolver accepts in `ctx` (well defined whenever an
/// accepted attempt exists, which [`lemma_resolution_exists`] guarantees).
pub open spec fn chosen_attempt(ctx: ResolveCtx) -> nat {
    choose|n: nat| resolves_at(ctx, n)
}

/// The name the record claims in its folder.
pub open spec fn chosen_name(ctx: ResolveCtx) -> Seq<char> {
    candidate_chars(ctx.name, chosen_attempt(ctx))
}

/// The claims on folder names after the first `k` records have resolved,
/// in order.
pub open spec fn claims_model(
    recs: Seq<MediaFileView>,
    disk: Seq<DiskEntryView>,
    overwrite: bool,
    k: int,
) -> Seq<(Seq<char>, Seq<char>)>
    decreases k,
{
    if k <= 0 {
        Seq::empty()
    } else {
        let prev = claims_model(recs, disk, overwrite, k - 1);
        prev.push(
            (rec_folder(recs[k - 1]), chosen_name(ctx_of(recs[k - 1], prev, disk, overwrite))),
        )
    }
}

/// A destination path inside the target tree: `root/folder/name`.
pub open spec fn joined_path(root: Seq<char>, folder: Seq<char>, name: Seq<char>) -> Seq<char> {
    root + seq!['/'] + folder + seq!['/'] + name
}

/// Builds `root/folder/name`.
fn join_path(root: &str, folder: &str, name: &str) -> (r: String)
    ensures
        r@ == joined_path(root@, folder@, name@),
{
    proof {
        reveal_strlit("/");
    }
    let mut r = String::from_str(root);
    r.append("/");
    r.append(folder);
    r.append("/");
    r.append(name);
    proof {
        assert(r@ =~= joined_path(root@, folder@, name@));
    }
    r
}

/// How one record looks after resolution: the identity fields are kept,
/// and the disposition and destination come from the accepted attempt
/// against the claims the earlier records made.
pub open spec fn resolved_record(
    pre: MediaFileView,
    post: MediaFileView,
    claims: Seq<(Seq<char>, Seq<char>)>,
    disk: Seq<DiskEntryView>,
    overwrite: bool,
    root: Seq<char>,
) -> bool {
    let ctx = ctx_of(pre, claims, disk, overwrite);
    &&& post.path == pre.path
    &&& post.filename == pre.filename
    &&& post.size == pre.size
    &&& post.date == pre.date
    &&& post.file_type == pre.file_type
    &&& exists|n: nat|
        #[trigger] resolves_at(ctx, n) && match attempt_outcome(ctx, n) {
            Some(p) => post.status == p.0 && post.target_path == joined_path(
                root,
                rec_folder(pre),
                p.1,
            ),
            None => false,
        }
}

/// What resolution guarantees for a whole (already sorted) batch: each
/// record is settled against the claims of the records before it.
pub open spec fn resolve_post(
    pre: Seq<MediaFileView>,
    post: Seq<MediaFileView>,
    disk: Seq<DiskEntryView>,
    overwrite: bool,
    root: Seq<char>,
) -> bool {
    &&& post.len() == pre.len()
    &&& forall|i: int|
        0 <= i < pre.len() ==> resolved_record(
            pre[i],
            #[trigger] post[i],
            claims_model(pre, disk, overwrite, i),
            disk,
            overwrite,
            root,
        )
}

proof fn lemma_claim_views_push(s: Seq<Claim>, c: Claim)
    ensures
        claim_views(s.push(c)) =~= claim_views(s).push(c@),
{
    assert forall|j: int| 0 <= j < s.push(c).len() implies claim_views(s.push(c))[j]
        == claim_views(s).push(c@)[j] by {
        if j < s.len() {
            assert(s.push(c)[j] == s[j]);
        } else {
            assert(s.push(c)[j] == c);
        }
    }
}

impl Analyzer {
    /// Resolves a sorted batch in place: walks the records in order,
    /// finds each one's accepted attempt against the disk snapshot and
    /// the names claimed so far, and writes the disposition and the
    /// destination path `target_dir/YYYY-MM-DD/name` into the record.
    pub fn resolve_sorted(
        files: &mut Vec<MediaFile>,
        target_dir: &str,
        index: &TargetIndex,
        overwrite_duplicates: bool,
    )
        requires
            old(files)@.len() + index@.len() < usize::MAX,
        ensures
            resolve_post(
                record_views(old(files)@),
                record_views(final(files)@),
                index@,
                overwrite_duplicates,
                target_dir@,
            ),
    {
        let ghost pre = record_views(old(files)@);
        let mut claims: Vec<Claim> = Vec::new();
        let mut i: usize = 0;
        proof {
            assert(claim_views(claims@) =~= claims_model(
                pre,
                index@,
                overwrite_duplicates,
                0,
            ));
        }
        while i < files.len()
            invariant
                files@.len() == old(files)@.len(),
                old(files)@.len() + index@.len() < usize::MAX,
                i <= files@.len(),
                pre == record_views(old(files)@),
                forall|j: int| i <= j < files@.len() ==> files@[j] == old(files)@[j],
                claims@.len() == i,
                claim_views(claims@) == claims_model(pre, index@, overwrite_duplicates, i as int),
                forall|j: int|
                    0 <= j < i ==> resolved_record(
                        pre[j],
                        #[trigger] record_views(files@)[j],
                        claims_model(pre, index@, overwrite_duplicates, j),
                        index@,
                        overwrite_duplicates,
                        target_dir@,
                    ),
            decreases files@.len() - i,
        {
            let ghost before = files@;
            let folder = files[i].date.folder_name();
            proof {
                assert(before[i as int] == old(files)@[i as int]);
                assert(pre[i as int] == before[i as int]@);
                assert(folder@ == rec_folder(pre[i as int]));
            }
            let (dispo, name, attempt) = resolve_one(
                files[i].filename.as_str(),
                files[i].size,
                folder.as_str(),
                &claims,
                index,
                overwrite_duplicates,
            );
            let target = join_path(target_dir, folder.as_str(), name.as_str());
            let ghost ctx = ctx_of(
                pre[i as int],
                claims_model(pre, index@, overwrite_duplicates, i as int),
                index@,
                overwrite_duplicates,
            );
            proof {
                assert(ctx == (ResolveCtx {
                    name: files@[i as int].filename@,
                    size: files@[i as int].size,
                    folder: folder@,
                    claims: claim_views(claims@),
                    disk: index@,
                    overwrite: overwrite_duplicates,
                }));
                assert(resolves_at(ctx, attempt as nat));
                assert(resolves_at(ctx, chosen_attempt(ctx)));
                lemma_resolves_at_unique(ctx, attempt as nat, chosen_attempt(ctx));
                assert(chosen_name(ctx) == name@);
            }
            let current = files.remove(i);
            let updated = MediaFile {
                path: current.path,
                filename: current.filename,
                size: current.size,
                date: current.date,
                file_type: current.file_type,
                status: dispo,
                target_path: target,
            };
            proof {
                assert(updated@.path == pre[i as int].path);
                assert(resolved_record(
                    pre[i as int],
                    updated@,
                    claims_model(pre, index@, overwrite_duplicates, i as int),
                    index@,
                    overwrite_duplicates,
                    target_dir@,
                ));
            }
            files.insert(i, updated);
            proof {
                assert forall|j: int| 0 <= j < files@.len() && j != i implies files@[j]
                    == before[j] by {
                    if j < i {
                        assert(before.remove(i as int)[j] == before[j]);
                    } else {
                        assert(before.remove(i as int)[j - 1] == before[j]);
                    }
                }
                assert(files@[i as int] == updated);
            }
            let ghost old_claims = claims@;
            claims.push(Claim { folder, name });
            proof {
                lemma_claim_views_push(old_claims, Claim { folder: folder, name: name });
            }
            i = i + 1;
            proof {
                assert(claims_model(pre, index@, overwrite_duplicates, i as int)
                    == claims_model(pre, index@, overwrite_duplicates, i - 1).push(
                    (
                        rec_folder(pre[i - 1]),
                        chosen_name(
                            ctx_of(
                                pre[i - 1],
                                claims_model(pre, index@, overwrite_duplicates, i - 1),
                                index@,
                                overwrite_duplicates,
                            ),
                        ),
                    ),
                ));
                assert(claim_views(claims@) == claims_model(
                    pre,
                    index@,
                    overwrite_duplicates,
                    i as int,
                ));
                assert forall|j: int| 0 <= j < i implies resolved_record(
                    pre[j],
                    #[trigger] record_views(files@)[j],
                    claims_model(pre, index@, overwrite_duplicates, j),
                    index@,
                    overwrite_duplicates,
                    target_dir@,
                ) by {
                    if j < i - 1 {
                        assert(record_views(files@)[j] == record_views(before)[j]);
                    } else {
                        assert(record_views(files@)[j] == updated@);
                    }
                }
            }
        }
    }

    /// The analysis stage in full: sorts the records, then resolves each
    /// one's destination and disposition against the target snapshot.
    pub fn analyze(
        files: &mut Vec<MediaFile>,
        target_dir: &str,
        index: &TargetIndex,
        overwrite_duplicates: bool,
    )
        requires
            old(files)@.len() + index@.len() < usize::MAX,
        ensures
            exists|mid: Seq<MediaFile>|
                #[trigger] sort_post(old(files)@, mid) && resolve_post(
                    record_views(mid),
                    record_views(final(files)@),
                    index@,
                    overwrite_duplicates,
                    target_dir@,
                ),
    {
        Self::sort_records(files);
        let ghost mid = files@;
        Self::resolve_sorted(files, target_dir, index, overwrite_duplicates);
        proof {
            assert(sort_post(old(files)@, mid) && resolve_post(
                record_views(mid),
                record_views(files@),
                index@,
                overwrite_duplicates,
                target_dir@,
            ));
        }
    }
}

// ---------------------------------------------------------------------------
// Laws of the resolver
// ---------------------------------------------------------------------------

/// Law: analysis is deterministic. Two runs over the same record sequence
/// and the same target snapshot produce records that agree in every view:
/// same order, same destination paths, same dispositions.
pub proof fn lemma_analysis_deterministic(
    input: Seq<MediaFile>,
    mid1: Seq<MediaFile>,
    mid2: Seq<MediaFile>,
    post1: Seq<MediaFileView>,
    post2: Seq<MediaFileView>,
    disk: Seq<DiskEntryView>,
    overwrite: bool,
    root: Seq<char>,
)
    requires
        sort_post(input, mid1),
        sort_post(input, mid2),
        resolve_post(record_views(mid1), post1, disk, overwrite, root),
        resolve_post(record_views(mid2), post2, disk, overwrite, root),
    ensures
        post1 == post2,
{
    lemma_rec_le_total_ordering();
    vstd::seq_lib::lemma_sorted_unique(record_views(mid1), record_views(mid2), rec_leq());
    assert(record_views(mid1) == record_views(mid2));
    let pre = record_views(mid1);
    assert forall|i: int| 0 <= i < post1.len() implies post1[i] == post2[i] by {
        let claims = claims_model(pre, disk, overwrite, i);
        let ctx = ctx_of(pre[i], claims, disk, overwrite);
        assert(resolved_record(pre[i], post1[i], claims, disk, overwrite, root));
        assert(resolved_record(pre[i], post2[i], claims, disk, overwrite, root));
        let n1 = choose|n: nat|
            #[trigger] resolves_at(ctx, n) && match attempt_outcome(ctx, n) {
                Some(p) => post1[i].status == p.0 && post1[i].target_path == joined_path(
                    root,
                    rec_folder(pre[i]),
                    p.1,
                ),
                None => false,
            };
        let n2 = choose|n: nat|
            #[trigger] resolves_at(ctx, n) && match attempt_outcome(ctx, n) {
                Some(p) => post2[i].status == p.0 && post2[i].target_path == joined_path(
                    root,
                    rec_folder(pre[i]),
                    p.1,
                ),
                None => false,
            };
        lemma_resolves_at_unique(ctx, n1, n2);
        assert(post1[i] =~= post2[i]);
    }
    assert(post1 =~= post2);
}

/// Law: an exact-size duplicate always resolves to skip, whatever the
/// overwrite setting and whatever was claimed earlier in the run: when
/// the record's own name sits on disk in its folder with the record's
/// size, attempt zero settles it as a skip targeting that name.
pub proof fn lemma_equal_size_always_skips(ctx: ResolveCtx)
    requires
        disk_size(ctx.disk, ctx.folder, ctx.name) == Some(ctx.size),
    ensures
        resolves_at(ctx, 0),
        attempt_outcome(ctx, 0) == Some((Disposition::Skip, ctx.name)),
{
    assert(candidate_chars(ctx.name, 0) == ctx.name);
}

/// Law: only the unmodified original name is ever overwritten. A renamed
/// variant can settle as upload or skip, never as overwrite.
pub proof fn lemma_overwrite_keeps_original_name(ctx: ResolveCtx, n: nat, name: Seq<char>)
    requires
        attempt_outcome(ctx, n) == Some((Disposition::Overwrite, name)),
    ensures
        n == 0,
        name == ctx.name,
{
    assert(candidate_chars(ctx.name, 0) == ctx.name);
}

/// Law: renaming walks the numeric suffixes without gaps: every attempt
/// below the accepted one was blocked by a file on disk or a name claimed
/// earlier in this run.
pub proof fn lemma_rename_walks_suffixes(ctx: ResolveCtx, n: nat)
    requires
        resolves_at(ctx, n),
    ensures
        forall|m: nat|
            m < n ==> disk_size(ctx.disk, ctx.folder, #[trigger] candidate_chars(ctx.name, m))
                is Some || claimed(ctx.claims, ctx.folder, candidate_chars(ctx.name, m)),
{
    assert forall|m: nat|
        m < n implies disk_size(
        ctx.disk,
        ctx.folder,
        #[trigger] candidate_chars(ctx.name, m),
    ) is Some || claimed(ctx.claims, ctx.folder, candidate_chars(ctx.name, m)) by {
        assert(attempt_outcome(ctx, m) is None);
    }
}

/// Law: an accepted upload takes a fresh name: one neither on disk in the
/// folder nor claimed by any earlier record of the run.
pub proof fn lemma_upload_takes_fresh_name(ctx: ResolveCtx, n: nat, name: Seq<char>)
    requires
        attempt_outcome(ctx, n) == Some((Disposition::Upload, name)),
    ensures
        !claimed(ctx.claims, ctx.folder, name),
        disk_size(ctx.disk, ctx.folder, name) is None,
{
}

proof fn lemma_claims_model_len(
    recs: Seq<MediaFileView>,
    disk: Seq<DiskEntryView>,
    overwrite: bool,
    k: int,
)
    requires
        0 <= k,
    ensures
        claims_model(recs, disk, overwrite, k).len() == k,
    decreases k,
{
    if k > 0 {
        lemma_claims_model_len(recs, disk, overwrite, k - 1);
    }
}

/// The claim list after `k` records holds, at position `i`, exactly the
/// folder and name record `i` settled on.
pub proof fn lemma_claims_model_entry(
    recs: Seq<MediaFileView>,
    disk: Seq<DiskEntryView>,
    overwrite: bool,
    i: int,
    k: int,
)
    requires
        0 <= i < k,
    ensures
        claims_model(recs, disk, overwrite, k).len() == k,
        claims_model(recs, disk, overwrite, k)[i] == (
            rec_folder(recs[i]),
            chosen_name(ctx_of(recs[i], claims_model(recs, disk, overwrite, i), disk, overwrite)),
        ),
    decreases k,
{
    lemma_claims_model_len(recs, disk, overwrite, k);
    if i < k - 1 {
        lemma_claims_model_entry(recs, disk, overwrite, i, k - 1);
    }
}

proof fn lemma_joined_path_injective_in_name(
    root: Seq<char>,
    folder: Seq<char>,
    n1: Seq<char>,
    n2: Seq<char>,
)
    requires
        n1 != n2,
    ensures
        joined_path(root, folder, n1) != joined_path(root, folder, n2),
{
    let p1 = joined_path(root, folder, n1);
    let p2 = joined_path(root, folder, n2);
    if p1 == p2 {
        let w = root.len() + 1 + folder.len() + 1;
        assert(n1 =~= p1.subrange(w as int, p1.len() as int));
        assert(n2 =~= p2.subrange(w as int, p2.len() as int));
        assert(false);
    }
}

/// Law: within one date folder, an uploaded destination never reuses a
/// destination an earlier record of the same run settled on.
pub proof fn lemma_batch_destinations_unique(
    pre: Seq<MediaFileView>,
    post: Seq<MediaFileView>,
    disk: Seq<DiskEntryView>,
    overwrite: bool,
    root: Seq<char>,
    i: int,
    j: int,
)
    requires
        resolve_post(pre, post, disk, overwrite, root),
        0 <= i < j < pre.len(),
        rec_folder(pre[i]) == rec_folder(pre[j]),
        post[j].status == Disposition::Upload,
    ensures
        post[j].target_path != post[i].target_path,
{
    let claims_i = claims_model(pre, disk, overwrite, i);
    let ctx_i = ctx_of(pre[i], claims_i, disk, overwrite);
    assert(resolved_record(pre[i], post[i], claims_i, disk, overwrite, root));
    let n_i = choose|n: nat|
        #[trigger] resolves_at(ctx_i, n) && match attempt_outcome(ctx_i, n) {
            Some(p) => post[i].status == p.0 && post[i].target_path == joined_path(
                root,
                rec_folder(pre[i]),
                p.1,
            ),
            None => false,
        };
    assert(resolves_at(ctx_i, chosen_attempt(ctx_i)));
    lemma_resolves_at_unique(ctx_i, n_i, chosen_attempt(ctx_i));
    let name_i = attempt_outcome(ctx_i, n_i)->Some_0.1;
    assert(name_i == candidate_chars(ctx_i.name, n_i));
    assert(chosen_name(ctx_i) == name_i);

    let claims_j = claims_model(pre, disk, overwrite, j);
    lemma_claims_model_entry(pre, disk, overwrite, i, j);
    assert(claims_j[i] == (rec_folder(pre[i]), name_i));
    let ctx_j = ctx_of(pre[j], claims_j, disk, overwrite);
    assert(resolved_record(pre[j], post[j], claims_j, disk, overwrite, root));
    let n_j = choose|n: nat|
        #[trigger] resolves_at(ctx_j, n) && match attempt_outcome(ctx_j, n) {
            Some(p) => post[j].status == p.0 && post[j].target_path == joined_path(
                root,
                rec_folder(pre[j]),
                p.1,
            ),
            None => false,
        };
    let name_j = attempt_outcome(ctx_j, n_j)->Some_0.1;
    lemma_upload_takes_fresh_name(ctx_j, n_j, name_j);
    assert(claimed(claims_j, rec_folder(pre[j]), name_i));
    assert(name_j != name_i);
    lemma_joined_path_injective_in_name(root, rec_folder(pre[j]), name_j, name_i);
}

/// Law: a record that settles as skip or overwrite targets a name that
/// is on disk in its folder.
pub proof fn lemma_duplicate_target_is_on_disk(ctx: ResolveCtx, n: nat, d: Disposition, name: Seq<char>)
    requires
        attempt_outcome(ctx, n) == Some((d, name)),
        d == Disposition::Skip || d == Disposition::Overwrite,
    ensures
        disk_size(ctx.disk, ctx.folder, name) is Some,
{
}

/// Law: within one date folder, a record that skips or overwrites an
/// on-disk duplicate never collides with an upload of the same run:
/// uploads only ever take names that are not on disk. Together with
/// [`lemma_batch_destinations_unique`], accepted destinations inside a
/// folder are unique, except where several records point at the same
/// on-disk duplicate.
pub proof fn lemma_duplicate_never_hits_upload(
    pre: Seq<MediaFileView>,
    post: Seq<MediaFileView>,
    disk: Seq<DiskEntryView>,
    overwrite: bool,
    root: Seq<char>,
    i: int,
    j: int,
)
    requires
        resolve_post(pre, post, disk, overwrite, root),
        0 <= i < pre.len(),
        0 <= j < pre.len(),
        i != j,
        rec_folder(pre[i]) == rec_folder(pre[j]),
        post[i].status == Disposition::Upload,
        post[j].status == Disposition::Skip || post[j].status == Disposition::Overwrite,
    ensures
        post[j].target_path != post[i].target_path,
{
    let claims_i = claims_model(pre, disk, overwrite, i);
    let ctx_i = ctx_of(pre[i], claims_i, disk, overwrite);
    assert(resolved_record(pre[i], post[i], claims_i, disk, overwrite, root));
    let n_i = choose|n: nat|
        #[trigger] resolves_at(ctx_i, n) && match attempt_outcome(ctx_i, n) {
            Some(p) => post[i].status == p.0 && post[i].target_path == joined_path(
                root,
                rec_folder(pre[i]),
                p.1,
            ),
            None => false,
        };
    let name_i = attempt_outcome(ctx_i, n_i)->Some_0.1;
    lemma_upload_takes_fresh_name(ctx_i, n_i, name_i);

    let claims_j = claims_model(pre, disk, overwrite, j);
    let ctx_j = ctx_of(pre[j], claims_j, disk, overwrite);
    assert(resolved_record(pre[j], post[j], claims_j, disk, overwrite, root));
    let n_j = choose|n: nat|
        #[trigger] resolves_at(ctx_j, n) && match attempt_outcome(ctx_j, n) {
            Some(p) => post[j].status == p.0 && post[j].target_path == joined_path(
                root,
                rec_folder(pre[j]),
                p.1,
            ),
            None => false,
        };
    let name_j = attempt_outcome(ctx_j, n_j)->Some_0.1;
    lemma_duplicate_target_is_on_disk(ctx_j, n_j, post[j].status, name_j);
    assert(name_j != name_i);
    lemma_joined_path_injective_in_name(root, rec_folder(pre[j]), name_j, name_i);
}

/// Law: claims made in other date folders never affect a record. Two
/// contexts that agree on everything except claims, and whose claim lists
/// cover the record's own folder identically, settle at the same attempt
/// with the same outcome — so records bucketed on different days cannot
/// collide with one another.
pub proof fn lemma_other_folders_independent(ctx1: ResolveCtx, ctx2: ResolveCtx, n: nat)
    requires
        ctx2.name == ctx1.name,
        ctx2.size == ctx1.size,
        ctx2.folder == ctx1.folder,
        ctx2.disk == ctx1.disk,
        ctx2.overwrite == ctx1.overwrite,
        forall|nm: Seq<char>|
            #[trigger] claimed(ctx1.claims, ctx1.folder, nm) == claimed(
                ctx2.claims,
                ctx2.folder,
                nm,
            ),
    ensures
        resolves_at(ctx1, n) == resolves_at(ctx2, n),
        attempt_outcome(ctx1, n) == attempt_outcome(ctx2, n),
{
    assert forall|m: nat|
        #![trigger attempt_outcome(ctx1, m)]
        #![trigger attempt_outcome(ctx2, m)]
        attempt_outcome(ctx1, m) == attempt_outcome(ctx2, m) by {
        let c = candidate_chars(ctx1.name, m);
        assert(claimed(ctx1.claims, ctx1.folder, c) == claimed(ctx2.claims, ctx2.folder, c));
    }
}

} // verus!

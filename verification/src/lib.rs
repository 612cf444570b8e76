//! Block swapper: conceals a file's content by relocating its leading
//! fixed-size block into a sidecar file and overwriting the start of the
//! block with a fixed marker, and restores the original content from the
//! sidecar on request.
//!
//! The library holds the whole decision and transformation logic on plain
//! byte vectors; reading and writing the actual files is left to the caller,
//! which hands in what it read and writes out what the library returns.
use vstd::prelude::*;
use vstd::string::StringExecFns;

verus! {

/// Number of bytes of the leading block that a hide displaces by default.
pub const BLOCK_SIZE: usize = 32768;

/// Length in bytes of the fixed marker written at the start of a hidden file.
pub const MARKER_LEN: usize = 5;

/// The fixed marker sequence: its presence at the start of a file's leading
/// block is the authoritative signal that the block has been displaced into
/// a sidecar. The exact bytes must never change, or previously hidden files
/// would no longer be recognised.
pub open spec fn marker_seq() -> Seq<u8> {
    seq![113u8, 234u8, 6u8, 57u8, 34u8]
}

/// The marker as an executable byte vector.
pub fn marker() -> (m: Vec<u8>)
    ensures
        m@ == marker_seq(),
{
    let mut m: Vec<u8> = Vec::new();
    m.push(113);
    m.push(234);
    m.push(6);
    m.push(57);
    m.push(34);
    proof {
        assert(m@ =~= marker_seq());
    }
    m
}

/// Everything that can stop a hide or a show. Each operation terminates with
/// success or with exactly one of these; none is retried.
#[derive(Clone, Copy, Debug, PartialEq, Eq, Structural)]
pub enum SwapError {
    /// The target path does not exist.
    TargetMissing,
    /// A hide was requested but the sidecar is already present.
    SidecarAlreadyExists,
    /// A show was requested but no sidecar is present.
    SidecarMissing,
    /// The target is shorter than the block size, so there is no full leading
    /// block to displace.
    InsufficientLength,
    /// A show was requested but the target's leading bytes are not the
    /// marker, so the target is not currently hidden.
    NotHidden,
    /// An underlying read, write, create or delete failed; the caller that
    /// performs the file accesses reports the originating cause.
    IOFailure,
}

/// The content of a file after `data` has been written over its start:
/// `data` itself, followed by whatever of the old content lies beyond it.
pub open spec fn overwrite_prefix(file: Seq<u8>, data: Seq<u8>) -> Seq<u8>
    recommends
        data.len() <= file.len(),
{
    data + file.skip(data.len() as int)
}

/// Whether a leading block signals a hidden file: it begins with the marker.
pub open spec fn block_bears_marker(block: Seq<u8>) -> bool {
    block.len() >= MARKER_LEN && block.take(MARKER_LEN as int) == marker_seq()
}

/// A copy of the first `n` bytes of `v`.
fn copy_prefix(v: &Vec<u8>, n: usize) -> (r: Vec<u8>)
    requires
        n <= v@.len(),
    ensures
        r@ == v@.take(n as int),
{
    let mut r: Vec<u8> = Vec::new();
    let mut i: usize = 0;
    while i < n
        invariant
            i <= n <= v@.len(),
            r@ == v@.take(i as int),
        decreases n - i,
    {
        r.push(v[i]);
        proof {
            assert(r@ =~= v@.take(i + 1));
        }
        i = i + 1;
    }
    r
}

/// Whether the block begins with the marker, decided by comparing the first
/// `MARKER_LEN` bytes.
pub fn bears_marker(block: &Vec<u8>) -> (b: bool)
    ensures
        b == block_bears_marker(block@),
{
    if block.len() < MARKER_LEN {
        return false;
    }
    let m = marker();
    let mut i: usize = 0;
    while i < MARKER_LEN
        invariant
            i <= MARKER_LEN,
            block@.len() >= MARKER_LEN,
            m@ == marker_seq(),
            forall|k: int| 0 <= k < i ==> block@[k] == marker_seq()[k],
        decreases MARKER_LEN - i,
    {
        if block[i] != m[i] {
            proof {
                assert(block@.take(MARKER_LEN as int)[i as int] != marker_seq()[i as int]);
            }
            return false;
        }
        i = i + 1;
    }
    proof {
        assert(block@.take(MARKER_LEN as int) =~= marker_seq());
    }
    true
}

/// What a successful hide produces: the displaced block for the sidecar file
/// and the block that replaces it at the start of the target.
#[derive(Debug)]
pub struct HideOutput {
    /// The target's original leading block, to be written verbatim into the
    /// newly created sidecar file.
    pub sidecar: Vec<u8>,
    /// The target's leading block after the hide: the marker, followed by the
    /// original bytes beyond it. Only the first `MARKER_LEN` bytes differ
    /// from the original block, so a caller need overwrite no more than them.
    pub new_head: Vec<u8>,
}

/// The block swapper: the configuration a hide or show runs under. The marker
/// is fixed; the block size defaults to `BLOCK_SIZE` and is configurable, but
/// never smaller than the marker, which must fit inside the block.
pub struct BlockSwapper {
    block_size: usize,
}

impl BlockSwapper {
    /// The marker fits inside every block this configuration handles.
    #[verifier::type_invariant]
    pub closed spec fn wf(self) -> bool {
        self.block_size >= MARKER_LEN
    }

    /// The size of the leading block that hide displaces and show restores.
    pub closed spec fn spec_block_size(self) -> usize {
        self.block_size
    }

    /// A swapper with the default block size.
    pub fn new() -> (s: Self)
        ensures
            s.spec_block_size() == BLOCK_SIZE,
    {
        BlockSwapper { block_size: BLOCK_SIZE }
    }

    /// A swapper with a chosen block size; refused when the marker would not
    /// fit in the block.
    pub fn with_block_size(block_size: usize) -> (r: Option<Self>)
        ensures
            block_size >= MARKER_LEN <==> r is Some,
            r matches Some(s) ==> s.spec_block_size() == block_size,
    {
        if block_size >= MARKER_LEN {
            Some(BlockSwapper { block_size })
        } else {
            None
        }
    }

    pub fn block_size(&self) -> (n: usize)
        ensures
            n == self.spec_block_size(),
            n >= MARKER_LEN,
    {
        proof {
            use_type_invariant(&*self);
        }
        self.block_size
    }

    /// Hide: decide from what was read whether the target may be hidden, and
    /// if so compute both the sidecar's content and the target's new leading
    /// block.
    ///
    /// `head` is what a read of up to one block from the start of the target
    /// returned; `sidecar_exists` is whether the sidecar path is already
    /// present, checked before anything is read. The caller mutates no file
    /// unless `Ok` comes back, so on every error both target and sidecar are
    /// left byte-unchanged.
    pub fn hide_block(&self, head: &Vec<u8>, sidecar_exists: bool) -> (r: Result<
        HideOutput,
        SwapError,
    >)
        ensures
            r is Ok <==> (!sidecar_exists && head@.len() >= self.spec_block_size()),
            sidecar_exists ==> r === Err(SwapError::SidecarAlreadyExists),
            !sidecar_exists && head@.len() < self.spec_block_size() ==> r === Err(
                SwapError::InsufficientLength,
            ),
            r matches Ok(o) ==> {
                &&& o.sidecar@ == head@.take(self.spec_block_size() as int)
                &&& o.new_head@ == overwrite_prefix(
                    head@.take(self.spec_block_size() as int),
                    marker_seq(),
                )
            },
    {
        proof {
            use_type_invariant(&*self);
        }
        if sidecar_exists {
            return Err(SwapError::SidecarAlreadyExists);
        }
        let bs = self.block_size;
        if head.len() < bs {
            return Err(SwapError::InsufficientLength);
        }
        let sidecar = copy_prefix(head, bs);
        let mut new_head = marker();
        let mut i: usize = MARKER_LEN;
        while i < bs
            invariant
                MARKER_LEN <= i <= bs <= head@.len(),
                new_head@ == marker_seq() + head@.subrange(MARKER_LEN as int, i as int),
            decreases bs - i,
        {
            new_head.push(head[i]);
            proof {
                assert(new_head@ =~= marker_seq() + head@.subrange(MARKER_LEN as int, i + 1));
            }
            i = i + 1;
        }
        proof {
            assert(new_head@ =~= overwrite_prefix(head@.take(bs as int), marker_seq()));
        }
        Ok(HideOutput { sidecar, new_head })
    }

    /// Show: decide from what was read whether the target may be restored,
    /// and if so return the bytes to write back over the start of the target,
    /// which are exactly the sidecar's content. On success the caller writes
    /// them at offset zero and then deletes the sidecar; on every error it
    /// mutates nothing, so target and sidecar are left byte-unchanged.
    ///
    /// `head` is what a read of the target's first bytes returned (at least
    /// the marker's length, when the file has that many); `sidecar` is the
    /// sidecar's content, or `None` when the sidecar path does not exist.
    pub fn show_block(&self, head: &Vec<u8>, sidecar: Option<&Vec<u8>>) -> (r: Result<
        Vec<u8>,
        SwapError,
    >)
        ensures
            r is Ok <==> (sidecar is Some && block_bears_marker(head@)),
            sidecar is None ==> r === Err(SwapError::SidecarMissing),
            sidecar is Some && !block_bears_marker(head@) ==> r === Err(SwapError::NotHidden),
            r matches Ok(b) ==> sidecar matches Some(s) && b@ == s@,
    {
        let s = match sidecar {
            None => {
                return Err(SwapError::SidecarMissing);
            },
            Some(s) => s,
        };
        if !bears_marker(head) {
            return Err(SwapError::NotHidden);
        }
        let restored = copy_prefix(s, s.len());
        proof {
            assert(restored@ =~= s@);
        }
        Ok(restored)
    }
}

/// The sidecar's path: the target's path with the fixed suffix appended, so
/// the sidecar always sits beside its target.
pub fn sidecar_name(target: &str) -> (r: String)
    ensures
        r@ == target@ + ".hs"@,
{
    let mut r = String::from_str(target);
    r.append(".hs");
    r
}

/// The check both operations make before touching any file: a missing target
/// stops them.
pub fn check_target_present(target_exists: bool) -> (r: Result<(), SwapError>)
    ensures
        r is Ok <==> target_exists,
        !target_exists ==> r === Err(SwapError::TargetMissing),
{
    if target_exists {
        Ok(())
    } else {
        Err(SwapError::TargetMissing)
    }
}

/// Hiding leaves a block that show recognises: after the marker is written
/// over the start of a block at least as long as the marker, the block bears
/// the marker.
pub proof fn lemma_hidden_block_bears_marker(block: Seq<u8>)
    requires
        block.len() >= MARKER_LEN,
    ensures
        block_bears_marker(overwrite_prefix(block, marker_seq())),
{
    assert(overwrite_prefix(block, marker_seq()).take(MARKER_LEN as int) =~= marker_seq());
}

/// Round trip: writing the marker over the start of a file while keeping its
/// first `block_size` bytes aside, and later writing those bytes back over
/// the start, restores the file exactly — the leading block and everything
/// beyond it.
pub proof fn lemma_round_trip(file: Seq<u8>, block_size: int)
    requires
        MARKER_LEN <= block_size <= file.len(),
    ensures
        overwrite_prefix(overwrite_prefix(file, marker_seq()), file.take(block_size)) == file,
{
    let hidden = overwrite_prefix(file, marker_seq());
    assert(hidden.skip(block_size) =~= file.skip(block_size));
    assert(overwrite_prefix(hidden, file.take(block_size)) =~= file);
}

} // verus!

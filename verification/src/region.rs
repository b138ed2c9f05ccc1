use crate::chunk::Chunk;
use crate::coords::{ChunkCoord, REGION_SIZE};
use crate::text::{
    join_path, join_path_str, lemma_join_path_injective_in_part, lemma_join_path_last_component,
    lemma_signed_decimal_has_no_separators, lemma_signed_decimal_injective, push_signed_decimal, signed_decimal,
};
use lz4_flex::block::DecompressError;
use vstd::prelude::*;

verus! {

/// lz4_flex's error for malformed compressed input.
#[verifier::external_type_specification]
#[verifier::external_body]
pub struct ExDecompressError(lz4_flex::block::DecompressError);

/// The bytes that `lz4_flex::block::decompress_size_prepended` recovers from `input`,
/// or `None` where it reports malformed input.
pub uninterp spec fn lz4_block_decompressed(input: Seq<u8>) -> Option<Seq<u8>>;

/// Largest chunk file, in bytes, that is decompressed; longer files are refused.
pub const MAX_CHUNK_FILE_BYTES: usize = 16_777_216;

/// Largest payload, in bytes, whose chunk file always lies within `frame_within_limits`,
/// whatever the target.
pub const ALWAYS_LOADABLE_PAYLOAD_BYTES: usize = 4_194_304;

/// The payload size that the first four bytes of `bytes` declare (little endian).
pub open spec fn declared_size(bytes: Seq<u8>) -> int {
    bytes[0] as int + bytes[1] as int * 0x100 + bytes[2] as int * 0x1_0000 + bytes[3] as int * 0x100_0000
}

/// Whether lz4_flex decompresses `bytes` without overflowing: the file is at most
/// `MAX_CHUNK_FILE_BYTES` long (lz4_flex sums length bytes, up to 255 each, in a `u32`),
/// and the declared size plus the longest match length the file can encode fits in `isize`
/// (lz4_flex allocates the declared size and adds match lengths to output positions in
/// `usize`). The second bound holds of every file within the first on 64-bit targets; it
/// refuses files only on 32-bit targets, where lz4_flex would overflow on them.
pub open spec fn frame_within_limits(bytes: Seq<u8>) -> bool {
    &&& bytes.len() <= MAX_CHUNK_FILE_BYTES
    &&& bytes.len() >= 4 ==> declared_size(bytes) + 19 + 255 * bytes.len() <= isize::MAX
}

/// On 64-bit targets the size limits come down to the file length: every file of at most
/// `MAX_CHUNK_FILE_BYTES` lies within them, whatever size it declares.
pub proof fn only_the_length_limits_files_on_64_bit_targets(bytes: Seq<u8>)
    requires
        isize::MAX == i64::MAX,
        bytes.len() <= MAX_CHUNK_FILE_BYTES,
    ensures
        frame_within_limits(bytes),
{
}

/// Calls `lz4_flex::block::compress_prepend_size`: LZ4 block compression with the input
/// length prepended as a little-endian `u32`. Claims what lz4_flex's source shows: the
/// output is at most `get_maximum_output_size(len) + 4` bytes, it starts with the input
/// length, and `decompress_size_prepended` gives the input back from it, for inputs of at
/// most `u32::MAX` bytes. It requires that `input.len() * 110` fits in `usize`, which
/// `get_maximum_output_size` computes. The compressed bytes themselves are left unsaid:
/// lz4_flex picks its match finder by target, so they may differ between machines.
#[verifier::external_body]
fn compress_prepend_size(input: &[u8]) -> (out: Vec<u8>)
    requires
        input@.len() * 110 <= usize::MAX,
    ensures
        out@.len() <= 24 + input@.len() * 110 / 100,
        input@.len() <= u32::MAX ==> out@.len() >= 4 && declared_size(out@) == input@.len(),
        input@.len() <= u32::MAX ==> lz4_block_decompressed(out@) == Some(input@),
{
    lz4_flex::block::compress_prepend_size(input)
}

/// Calls `lz4_flex::block::decompress_size_prepended`. Claims that the result is determined
/// by the input. The input is kept within `frame_within_limits`, so that the length
/// integers lz4_flex sums in `u32` and `usize`, and the buffer it allocates for the
/// declared size, cannot overflow. The declared size only sizes that buffer; the result is
/// the decoded bytes.
#[verifier::external_body]
fn decompress_size_prepended(input: &[u8]) -> (r: Result<Vec<u8>, DecompressError>)
    requires
        frame_within_limits(input@),
    ensures
        (match r {
            Ok(v) => lz4_block_decompressed(input@) == Some(v@),
            Err(_) => lz4_block_decompressed(input@) is None,
        }),
{
    lz4_flex::block::decompress_size_prepended(input)
}

/// What reading a chunk file with the given contents (`None` for a missing file) gives:
/// no payload for a missing file, `InvalidData` for a file beyond the size limits or whose
/// contents do not decompress, and the decompressed payload otherwise.
pub open spec fn loaded_payload(contents: Option<Seq<u8>>) -> Result<Option<Seq<u8>>, RegionError> {
    match contents {
        None => Ok(None),
        Some(bytes) => if !frame_within_limits(bytes) {
            Err(RegionError::InvalidData)
        } else {
            match lz4_block_decompressed(bytes) {
                Some(payload) => Ok(Some(payload)),
                None => Err(RegionError::InvalidData),
            }
        },
    }
}

/// Why a stored chunk could not be read back.
#[derive(Debug, Clone, Copy, PartialEq, Eq, Structural)]
pub enum RegionError {
    /// The file does not hold a well-formed compressed payload.
    InvalidData,
}

/// What is stored for one chunk: its position and its bookkeeping.
#[derive(Debug, Clone, Copy, PartialEq, Eq, Structural)]
pub struct RegionChunkData {
    pub coord: ChunkCoord,
    pub chunk: Chunk,
}

impl RegionChunkData {
    /// The record stored for `chunk`.
    pub fn for_chunk(chunk: &Chunk) -> (data: Self)
        ensures
            data.coord == chunk.coord,
            data.chunk == *chunk,
    {
        RegionChunkData { coord: chunk.coord, chunk: *chunk }
    }
}

/// Where and what to write to store one chunk.
#[derive(Debug, Clone)]
pub struct ChunkFile {
    /// Directory of the chunk's region; it must exist before the file is written.
    pub dir: String,
    /// Path of the chunk's file.
    pub path: String,
    /// Contents of the chunk's file.
    pub bytes: Vec<u8>,
}

/// Name of the directory of the region that holds chunk `c`: `r.<x>.<z>`.
pub open spec fn region_dir_name(c: ChunkCoord) -> Seq<char> {
    seq!['r', '.'] + signed_decimal(c.x as int / REGION_SIZE as int) + seq!['.'] + signed_decimal(
        c.z as int / REGION_SIZE as int,
    )
}

/// Name of the file of chunk `c`: `c.<x>.<z>.bin`.
pub open spec fn chunk_file_name(c: ChunkCoord) -> Seq<char> {
    seq!['c', '.'] + signed_decimal(c.x as int) + seq!['.'] + signed_decimal(c.z as int) + seq![
        '.',
        'b',
        'i',
        'n',
    ]
}

/// Path of the directory of the region of chunk `c` under `root`.
pub open spec fn region_dir_path(root: Seq<char>, c: ChunkCoord) -> Seq<char> {
    join_path(root, region_dir_name(c))
}

/// Path of the file of chunk `c` under `root`.
pub open spec fn chunk_file_path(root: Seq<char>, c: ChunkCoord) -> Seq<char> {
    join_path(region_dir_path(root, c), chunk_file_name(c))
}

/// The name `<tag><a>.<b><suffix>`, as region directories and chunk files are named.
pub open spec fn dotted_name(tag: Seq<char>, a: int, b: int, suffix: Seq<char>) -> Seq<char> {
    tag + signed_decimal(a) + seq!['.'] + signed_decimal(b) + suffix
}

/// With the same tag and suffix, dotted names are equal only for equal numbers.
proof fn lemma_dotted_name_injective(tag: Seq<char>, a1: int, b1: int, a2: int, b2: int, suffix: Seq<char>)
    requires
        dotted_name(tag, a1, b1, suffix) == dotted_name(tag, a2, b2, suffix),
    ensures
        a1 == a2,
        b1 == b2,
{
    let s = dotted_name(tag, a1, b1, suffix);
    let x1 = signed_decimal(a1);
    let x2 = signed_decimal(a2);
    let y1 = signed_decimal(b1);
    let y2 = signed_decimal(b2);
    let t = tag.len() as int;
    lemma_signed_decimal_has_no_separators(a1);
    lemma_signed_decimal_has_no_separators(a2);
    assert(s =~= tag + x1 + seq!['.'] + y1 + suffix);
    assert(s =~= tag + x2 + seq!['.'] + y2 + suffix);
    if x1.len() < x2.len() {
        assert(s[t + x1.len()] == '.');
        assert(s[t + x1.len()] == x2[x1.len() as int]);
    } else if x2.len() < x1.len() {
        assert(s[t + x2.len()] == '.');
        assert(s[t + x2.len()] == x1[x2.len() as int]);
    } else {
        assert(x1 =~= s.subrange(t, t + x1.len()));
        assert(x2 =~= s.subrange(t, t + x2.len()));
        lemma_signed_decimal_injective(a1, a2);
        let start = t + x1.len() + 1;
        assert(y1 =~= s.subrange(start, start + y1.len()));
        assert(y2 =~= s.subrange(start, start + y2.len()));
        lemma_signed_decimal_injective(b1, b2);
    }
}

/// A dotted name whose tag and suffix hold no `/` holds none either.
proof fn lemma_dotted_name_has_no_slash(tag: Seq<char>, a: int, b: int, suffix: Seq<char>)
    requires
        forall|i: int| 0 <= i < tag.len() ==> #[trigger] tag[i] != '/',
        forall|i: int| 0 <= i < suffix.len() ==> #[trigger] suffix[i] != '/',
    ensures
        forall|i: int| 0 <= i < dotted_name(tag, a, b, suffix).len() ==> #[trigger] dotted_name(tag, a, b, suffix)[i] != '/',
{
    let x = signed_decimal(a);
    let y = signed_decimal(b);
    lemma_signed_decimal_has_no_separators(a);
    lemma_signed_decimal_has_no_separators(b);
    let s = dotted_name(tag, a, b, suffix);
    assert forall|i: int| 0 <= i < s.len() implies #[trigger] s[i] != '/' by {
        let t = tag.len() as int;
        if i < t {
            assert(s[i] == tag[i]);
        } else if i < t + x.len() {
            assert(s[i] == x[i - t]);
        } else if i == t + x.len() {
            assert(s[i] == '.');
        } else if i < t + x.len() + 1 + y.len() {
            assert(s[i] == y[i - t - x.len() - 1]);
        } else {
            assert(s[i] == suffix[i - t - x.len() - 1 - y.len()]);
        }
    }
}

/// Distinct chunks are stored in distinct files under any root directory: saving one
/// chunk never overwrites the file of another.
pub proof fn distinct_chunks_have_distinct_files(root: Seq<char>, a: ChunkCoord, b: ChunkCoord)
    requires
        a != b,
    ensures
        chunk_file_path(root, a) != chunk_file_path(root, b),
{
    let tag = seq!['c', '.'];
    let suffix = seq!['.', 'b', 'i', 'n'];
    assert(chunk_file_name(a) =~= dotted_name(tag, a.x as int, a.z as int, suffix));
    assert(chunk_file_name(b) =~= dotted_name(tag, b.x as int, b.z as int, suffix));
    if chunk_file_path(root, a) == chunk_file_path(root, b) {
        lemma_dotted_name_has_no_slash(tag, a.x as int, a.z as int, suffix);
        lemma_dotted_name_has_no_slash(tag, b.x as int, b.z as int, suffix);
        lemma_join_path_last_component(
            region_dir_path(root, a),
            chunk_file_name(a),
            region_dir_path(root, b),
            chunk_file_name(b),
        );
        lemma_dotted_name_injective(tag, a.x as int, a.z as int, b.x as int, b.z as int, suffix);
    }
}

/// Two chunks share a region directory exactly when they lie in the same region.
pub proof fn chunks_share_a_directory_iff_same_region(root: Seq<char>, a: ChunkCoord, b: ChunkCoord)
    ensures
        (region_dir_path(root, a) == region_dir_path(root, b)) == (a.x as int / REGION_SIZE as int == b.x as int
            / REGION_SIZE as int && a.z as int / REGION_SIZE as int == b.z as int / REGION_SIZE as int),
{
    let tag = seq!['r', '.'];
    let ra = (a.x as int / REGION_SIZE as int, a.z as int / REGION_SIZE as int);
    let rb = (b.x as int / REGION_SIZE as int, b.z as int / REGION_SIZE as int);
    assert(region_dir_name(a) =~= dotted_name(tag, ra.0, ra.1, Seq::empty()));
    assert(region_dir_name(b) =~= dotted_name(tag, rb.0, rb.1, Seq::empty()));
    if region_dir_path(root, a) == region_dir_path(root, b) {
        lemma_join_path_injective_in_part(root, region_dir_name(a), region_dir_name(b));
        lemma_dotted_name_injective(tag, ra.0, ra.1, rb.0, rb.1, Seq::empty());
    }
}

/// Stores chunks one file each, grouped in one directory per region, under a root directory.
#[derive(Debug, Clone)]
pub struct RegionStore {
    root: String,
}

impl RegionStore {
    /// The root directory of the store.
    pub closed spec fn root_path(&self) -> Seq<char> {
        self.root@
    }

    /// A store rooted at `root`.
    pub fn new(root: String) -> (store: Self)
        ensures
            store.root_path() == root@,
    {
        Self { root }
    }

    /// The root directory of the store.
    pub fn root(&self) -> (r: &str)
        ensures
            r@ == self.root_path(),
    {
        self.root.as_str()
    }

    /// The directory of the region that holds `coord`.
    pub fn region_dir(&self, coord: ChunkCoord) -> (dir: String)
        ensures
            dir@ == region_dir_path(self.root_path(), coord),
    {
        let region = coord.to_region();
        let mut name = String::new();
        proof {
            reveal_strlit("r.");
            reveal_strlit(".");
        }
        name.append("r.");
        push_signed_decimal(&mut name, region.x);
        name.append(".");
        push_signed_decimal(&mut name, region.z);
        join_path_str(self.root.as_str(), name.as_str())
    }

    /// The file that holds `coord`.
    pub fn chunk_path(&self, coord: ChunkCoord) -> (path: String)
        ensures
            path@ == chunk_file_path(self.root_path(), coord),
    {
        let dir = self.region_dir(coord);
        let mut name = String::new();
        proof {
            reveal_strlit("c.");
            reveal_strlit(".");
            reveal_strlit(".bin");
        }
        name.append("c.");
        push_signed_decimal(&mut name, coord.x);
        name.append(".");
        push_signed_decimal(&mut name, coord.z);
        name.append(".bin");
        join_path_str(dir.as_str(), name.as_str())
    }

    /// The payload of a chunk file, given its contents (`None` when the file does not
    /// exist): no payload for a missing file, `InvalidData` for a file beyond the size
    /// limits or one that does not decompress, and the decompressed payload otherwise.
    pub fn load_chunk(&self, file_contents: Option<Vec<u8>>) -> (r: Result<Option<Vec<u8>>, RegionError>)
        ensures
            (match loaded_payload(
                match file_contents {
                    None => None,
                    Some(v) => Some(v@),
                },
            ) {
                Ok(None) => r == Ok::<Option<Vec<u8>>, RegionError>(None),
                Ok(Some(payload)) => r matches Ok(Some(out)) && out@ == payload,
                Err(e) => r == Err::<Option<Vec<u8>>, RegionError>(e),
            }),
    {
        match file_contents {
            None => Ok(None),
            Some(bytes) => {
                let n = bytes.len();
                if n > MAX_CHUNK_FILE_BYTES {
                    return Err(RegionError::InvalidData);
                }
                if n >= 4 {
                    let declared: u64 = bytes[0] as u64 + bytes[1] as u64 * 0x100 + bytes[2] as u64 * 0x1_0000
                        + bytes[3] as u64 * 0x100_0000;
                    if declared + 19 + 255 * (n as u64) > isize::MAX as u64 {
                        return Err(RegionError::InvalidData);
                    }
                }
                match decompress_size_prepended(bytes.as_slice()) {
                    Ok(payload) => Ok(Some(payload)),
                    Err(_) => Err(RegionError::InvalidData),
                }
            },
        }
    }

    /// Where and what to write to store `chunk`, whose serialized record is `payload`:
    /// the region directory, the chunk's file, and the compressed payload. Every payload of
    /// at most `u32::MAX` bytes whose file lies within the size limits (on 64-bit targets:
    /// whose file is at most `MAX_CHUNK_FILE_BYTES` long) reads back from that file
    /// unchanged; a payload of at most `ALWAYS_LOADABLE_PAYLOAD_BYTES` always does.
    pub fn save_chunk(&self, chunk: &Chunk, payload: &[u8]) -> (file: ChunkFile)
        requires
            payload@.len() * 110 <= usize::MAX,
        ensures
            file.dir@ == region_dir_path(self.root_path(), chunk.coord),
            file.path@ == chunk_file_path(self.root_path(), chunk.coord),
            file.bytes@.len() <= 24 + payload@.len() * 110 / 100,
            payload@.len() <= u32::MAX && frame_within_limits(file.bytes@) ==> loaded_payload(Some(file.bytes@))
                == Ok::<Option<Seq<u8>>, RegionError>(Some(payload@)),
            payload@.len() <= ALWAYS_LOADABLE_PAYLOAD_BYTES ==> frame_within_limits(file.bytes@),
    {
        let dir = self.region_dir(chunk.coord);
        let path = self.chunk_path(chunk.coord);
        let bytes = compress_prepend_size(payload);
        ChunkFile { dir, path, bytes }
    }
}

} // verus!

//! File transfer planning: part sizes from the server's limits, multipart
//! plans and their progress, the object-storage requests, signed part
//! uploads and resumption.
use vstd::prelude::*;

use crate::errors::{empty_message, ensure_not_empty, error_of, ErrorCode, ErrorView, OpenImError};
use crate::text::{
    concat2, decimal, has_prefix, owned, push_decimal, seq_lt, starts_with, str_before, str_eq, u64_to_decimal,
};

verus! {

pub const OBJECT_PART_LIMIT_PATH: &'static str = "/object/part_limit";

pub const OBJECT_INITIATE_MULTIPART_UPLOAD_PATH: &'static str = "/object/initiate_multipart_upload";

pub const OBJECT_AUTH_SIGN_PATH: &'static str = "/object/auth_sign";

pub const OBJECT_COMPLETE_MULTIPART_UPLOAD_PATH: &'static str = "/object/complete_multipart_upload";

/// How many parts one sign request asks for at most.
pub const DEFAULT_MAX_SIGN_PARTS: u32 = 20;

/// What the server is told about a file to upload.
#[derive(Debug, Clone, PartialEq, Eq)]
pub struct FileDigest {
    pub file_name: String,
    pub file_size: u64,
    pub content_type: String,
    pub sha256: String,
}

/// One part of a multipart upload.
#[derive(Debug, Clone, PartialEq, Eq)]
pub struct UploadPart {
    pub part_number: u32,
    pub offset: u64,
    pub size: u64,
    pub part_hash: String,
    pub uploaded: bool,
}

/// A file cut into parts.
#[derive(Debug, Clone, PartialEq, Eq)]
pub struct MultipartUploadPlan {
    pub file: FileDigest,
    pub part_size: u64,
    pub parts: Vec<UploadPart>,
}

/// How much of a plan is uploaded.
#[derive(Debug, Clone, PartialEq, Eq)]
pub struct UploadProgress {
    pub uploaded_bytes: u64,
    pub total_bytes: u64,
    pub uploaded_parts: usize,
    pub total_parts: usize,
}

impl UploadProgress {
    pub fn is_complete(&self) -> (r: bool)
        ensures
            r == (self.uploaded_bytes == self.total_bytes && self.uploaded_parts
                == self.total_parts),
    {
        self.uploaded_bytes == self.total_bytes && self.uploaded_parts == self.total_parts
    }
}

/// The server's receipt for one uploaded part.
#[derive(Debug, Clone, PartialEq, Eq)]
pub struct UploadedPart {
    pub part_number: u32,
    pub etag: String,
}

/// The parts uploaded by one pass, and the progress after it.
#[derive(Debug, Clone, PartialEq)]
pub struct UploadOutcome {
    pub uploaded_parts: Vec<UploadedPart>,
    pub progress: UploadProgress,
}

/// The server's limits on multipart uploads.
#[derive(Debug, Clone, PartialEq, Eq)]
pub struct ObjectPartLimit {
    pub min_part_size: u64,
    pub max_part_size: u64,
    pub max_num_size: u32,
}

/// `a / b` rounded up.
pub open spec fn div_ceil(a: int, b: int) -> int {
    if a % b == 0 {
        a / b
    } else {
        a / b + 1
    }
}

/// The message for a product of limits beyond `u64`.
pub open spec fn limit_overflow() -> ErrorView {
    error_of(10002, "part limit exceeds u64 range"@)
}

/// The part size for a file of `size` bytes under `limit`, or why there is
/// none: the minimum part size while the file fits in the maximum number of
/// minimum parts, else the size spread over the maximum number of parts.
pub open spec fn part_size_result(limit: ObjectPartLimit, size: u64) -> Result<u64, ErrorView> {
    let max_total = limit.max_part_size * limit.max_num_size;
    let min_total = limit.min_part_size * limit.max_num_size;
    if size == 0 {
        Err(error_of(10002, "size must be greater than 0"@))
    } else if limit.min_part_size == 0 {
        Err(error_of(10002, "min_part_size is zero"@))
    } else if limit.max_part_size == 0 {
        Err(error_of(10002, "max_part_size is zero"@))
    } else if limit.max_num_size == 0 {
        Err(error_of(10002, "max_num_size is zero"@))
    } else if max_total > u64::MAX {
        Err(limit_overflow())
    } else if size > max_total {
        Err(error_of(10002, "size must be less than "@ + decimal(max_total as nat) + "b"@))
    } else if min_total > u64::MAX {
        Err(limit_overflow())
    } else if size <= min_total {
        Ok(limit.min_part_size)
    } else {
        Ok(div_ceil(size as int, limit.max_num_size as int) as u64)
    }
}

impl ObjectPartLimit {
    /// The part size for a file of `file_size` bytes.
    pub fn part_size_for(&self, file_size: u64) -> (r: Result<u64, OpenImError>)
        ensures
            r is Ok <==> part_size_result(*self, file_size) is Ok,
            r matches Ok(n) ==> part_size_result(*self, file_size) == Ok::<u64, ErrorView>(n),
            r matches Err(e) ==> part_size_result(*self, file_size) == Err::<u64, ErrorView>(e@),
    {
        if file_size == 0 {
            return Err(OpenImError::args("size must be greater than 0"));
        }
        if self.min_part_size == 0 {
            return Err(OpenImError::args("min_part_size is zero"));
        }
        if self.max_part_size == 0 {
            return Err(OpenImError::args("max_part_size is zero"));
        }
        if self.max_num_size == 0 {
            return Err(OpenImError::args("max_num_size is zero"));
        }
        let count = self.max_num_size as u64;
        let max_total = match self.max_part_size.checked_mul(count) {
            Some(t) => t,
            None => {
                return Err(OpenImError::args("part limit exceeds u64 range"));
            },
        };
        if file_size > max_total {
            let mut message = owned("size must be less than ");
            push_decimal(&mut message, max_total);
            message.append("b");
            return Err(OpenImError::with_message(ErrorCode::args(), message));
        }
        let min_total = match self.min_part_size.checked_mul(count) {
            Some(t) => t,
            None => {
                return Err(OpenImError::args("part limit exceeds u64 range"));
            },
        };
        if file_size <= min_total {
            return Ok(self.min_part_size);
        }
        let quotient = file_size / count;
        if file_size % count == 0 {
            Ok(quotient)
        } else {
            proof {
                if count == 1 {
                    assert(file_size % count == 0) by (nonlinear_arith)
                        requires
                            count == 1,
                    ;
                }
                assert(quotient * count <= file_size) by (nonlinear_arith)
                    requires
                        quotient == file_size / count,
                        count > 0,
                ;
                assert(quotient < u64::MAX) by (nonlinear_arith)
                    requires
                        quotient * count <= file_size,
                        count >= 2,
                        file_size <= u64::MAX,
                ;
            }
            Ok(quotient + 1)
        }
    }
}

/// The request to store an object under a user's name.
#[derive(Debug, Clone, PartialEq, Eq)]
pub struct UploadObjectRequest {
    pub login_user_id: String,
    pub name: String,
    pub content_type: String,
    pub cause: String,
    pub url_prefix: String,
}

/// An object name put under the user's prefix: one leading `/` dropped,
/// then `<user>/` put in front unless it is there already.
pub open spec fn scoped_name(user: Seq<char>, name: Seq<char>) -> Seq<char> {
    let bare = if name.len() > 0 && name[0] == '/' {
        name.subrange(1, name.len() as int)
    } else {
        name
    };
    let prefix = user + "/"@;
    if has_prefix(bare, prefix) {
        bare
    } else {
        prefix + bare
    }
}

/// The error of naming an object: an empty user or name.
pub open spec fn upload_name_error(user: Seq<char>, name: Seq<char>) -> Option<ErrorView> {
    if user.len() == 0 {
        Some(error_of(10002, empty_message("login_user_id"@)))
    } else if name.len() == 0 {
        Some(error_of(10002, empty_message("name"@)))
    } else {
        None
    }
}

fn normalize_upload_name(login_user_id: &str, name: &str) -> (r: Result<String, OpenImError>)
    ensures
        r is Ok <==> upload_name_error(login_user_id@, name@) is None,
        r matches Err(e) ==> Some(e@) == upload_name_error(login_user_id@, name@),
        r matches Ok(n) ==> n@ == scoped_name(login_user_id@, name@),
{
    ensure_not_empty(login_user_id, "login_user_id")?;
    ensure_not_empty(name, "name")?;
    let slash = starts_with(name, "/");
    proof {
        reveal_strlit("/");
        assert("/"@ =~= seq!['/']);
        if name@.len() > 0 {
            assert(name@.subrange(0, 1) =~= seq![name@[0]]);
            if name@[0] == '/' {
                assert(name@.subrange(0, 1) =~= "/"@);
            }
            if slash {
                assert(seq![name@[0]][0] == "/"@[0]);
            }
        }
        assert(slash == (name@.len() > 0 && name@[0] == '/'));
    }
    let bare: &str = if slash {
        name.substring_char(1, name.unicode_len())
    } else {
        name
    };
    let prefix = concat2(login_user_id, "/");
    if starts_with(bare, prefix.as_str()) {
        Ok(owned(bare))
    } else {
        Ok(concat2(prefix.as_str(), bare))
    }
}

impl UploadObjectRequest {
    /// An object request with the name put under the user's prefix.
    pub fn new(login_user_id: &str, name: &str, content_type: &str) -> (r: Result<
        UploadObjectRequest,
        OpenImError,
    >)
        ensures
            r is Ok <==> upload_name_error(login_user_id@, name@) is None,
            r matches Err(e) ==> Some(e@) == upload_name_error(login_user_id@, name@),
            r matches Ok(o) ==> o.login_user_id@ == login_user_id@ && o.name@ == scoped_name(
                login_user_id@,
                name@,
            ) && o.content_type@ == content_type@ && o.cause@.len() == 0 && o.url_prefix@.len()
                == 0,
    {
        let scoped = normalize_upload_name(login_user_id, name)?;
        Ok(
            UploadObjectRequest {
                login_user_id: owned(login_user_id),
                name: scoped,
                content_type: owned(content_type),
                cause: String::new(),
                url_prefix: String::new(),
            },
        )
    }

    pub fn with_cause(self, cause: &str) -> (r: UploadObjectRequest)
        ensures
            r.cause@ == cause@,
            r == (UploadObjectRequest { cause: r.cause, ..self }),
    {
        UploadObjectRequest { cause: owned(cause), ..self }
    }

    pub fn with_url_prefix(self, url_prefix: &str) -> (r: UploadObjectRequest)
        ensures
            r.url_prefix@ == url_prefix@,
            r == (UploadObjectRequest { url_prefix: r.url_prefix, ..self }),
    {
        UploadObjectRequest { url_prefix: owned(url_prefix), ..self }
    }
}

#[derive(Debug, Clone, PartialEq, Eq)]
pub struct InitiateMultipartUploadRequest {
    pub hash: String,
    pub size: u64,
    pub part_size: u64,
    pub max_parts: u32,
    pub cause: String,
    pub name: String,
    pub content_type: String,
    pub url_prefix: String,
}

#[derive(Debug, Clone, PartialEq, Eq)]
pub struct InitiateMultipartUploadResponse {
    pub url: String,
    pub upload: Option<ObjectUploadInfo>,
}

#[derive(Debug, Clone, PartialEq, Eq)]
pub struct ObjectUploadInfo {
    pub upload_id: String,
    pub part_size: u64,
    pub sign: AuthSignParts,
    pub expire_time: i64,
}

#[derive(Debug, Clone, PartialEq, Eq)]
pub struct AuthSignRequest {
    pub upload_id: String,
    pub part_numbers: Vec<u32>,
}

#[derive(Debug, Clone, PartialEq, Eq)]
pub struct CompleteMultipartUploadRequest {
    pub upload_id: String,
    pub parts: Vec<String>,
    pub name: String,
    pub content_type: String,
    pub cause: String,
    pub url_prefix: String,
}

#[derive(Debug, Clone, PartialEq, Eq)]
pub struct CompleteMultipartUploadResponse {
    pub url: String,
}

/// The signing material for a batch of parts: a base URL, query and headers
/// shared by all, and each part's own.
#[derive(Debug, Clone, PartialEq, Eq)]
pub struct AuthSignParts {
    pub url: String,
    pub query: Vec<KeyValues>,
    pub header: Vec<KeyValues>,
    pub parts: Vec<SignedPart>,
}

#[derive(Debug, Clone, PartialEq, Eq)]
pub struct SignedPart {
    pub part_number: u32,
    pub url: String,
    pub query: Vec<KeyValues>,
    pub header: Vec<KeyValues>,
}

/// A key with its values.
#[derive(Debug, Clone, PartialEq, Eq)]
pub struct KeyValues {
    pub key: String,
    pub values: Vec<String>,
}

/// The views of a sequence of strings.
pub open spec fn strs(v: Seq<String>) -> Seq<Seq<char>> {
    v.map_values(|s: String| s@)
}

/// Copies of a sequence of strings.
fn copy_strs(values: &[&str]) -> (r: Vec<String>)
    ensures
        strs(r@) == values@.map_values(|s: &str| s@),
{
    let mut out: Vec<String> = Vec::new();
    let mut i: usize = 0;
    while i < values.len()
        invariant
            i <= values@.len(),
            strs(out@) == values@.take(i as int).map_values(|s: &str| s@),
        decreases values.len() - i,
    {
        let ghost before = out@;
        out.push(owned(values[i]));
        proof {
            assert(values@.take(i + 1) =~= values@.take(i as int).push(values@[i as int]));
            assert(values@.take(i + 1).map_values(|s: &str| s@) =~= values@.take(i as int).map_values(
                |s: &str| s@,
            ).push(values@[i as int]@));
            assert(strs(out@) =~= strs(before).push(values@[i as int]@));
        }
        i = i + 1;
    }
    assert(values@.take(i as int) =~= values@);
    out
}

impl KeyValues {
    pub fn new(key: &str, values: &[&str]) -> (r: KeyValues)
        ensures
            r.key@ == key@,
            strs(r.values@) == values@.map_values(|s: &str| s@),
    {
        KeyValues { key: owned(key), values: copy_strs(values) }
    }
}

/// A ready-to-send upload of one part.
#[derive(Debug, Clone, PartialEq, Eq)]
pub struct SignedUploadPartRequest {
    pub part_number: u32,
    pub method: &'static str,
    pub url: String,
    pub headers: Vec<KeyValues>,
    pub content_length: u64,
}

/// The object storage endpoints of the server.
pub trait ObjectStorageApi {
    fn part_limit(&mut self) -> Result<ObjectPartLimit, OpenImError>;

    fn initiate_multipart_upload(&mut self, request: &InitiateMultipartUploadRequest) -> Result<
        InitiateMultipartUploadResponse,
        OpenImError,
    >;

    fn auth_sign(&mut self, request: &AuthSignRequest) -> Result<AuthSignParts, OpenImError>;

    fn complete_multipart_upload(&mut self, request: &CompleteMultipartUploadRequest) -> Result<
        CompleteMultipartUploadResponse,
        OpenImError,
    >;
}

/// Sends one signed part upload.
pub trait HttpUploadClient {
    fn put_part(&mut self, request: &SignedUploadPartRequest) -> Result<UploadedPart, OpenImError>;
}

/// Uploads one part of a file.
pub trait FileUploadClient {
    fn upload_part(&mut self, file: &FileDigest, part: &UploadPart) -> Result<UploadedPart, OpenImError>;
}

/// The hash of one part: the file's hash, the part's offset and size.
pub open spec fn part_hash_of(sha: Seq<char>, offset: u64, size: u64) -> Seq<char> {
    sha + ":"@ + decimal(offset as nat) + ":"@ + decimal(size as nat)
}

fn part_hash(file: &FileDigest, offset: u64, size: u64) -> (r: String)
    ensures
        r@ == part_hash_of(file.sha256@, offset, size),
{
    let mut hash = file.sha256.clone();
    hash.append(":");
    push_decimal(&mut hash, offset);
    hash.append(":");
    push_decimal(&mut hash, size);
    hash
}

/// `p` is part `i` (from zero) of `file` cut into `part_size` pieces: it
/// starts at `i * part_size`, inside the file, and runs a full part or to
/// the end of the file; it is not uploaded yet.
pub open spec fn planned_part(file: FileDigest, part_size: u64, i: int, p: UploadPart) -> bool {
    &&& p.part_number == i + 1
    &&& p.offset == i * part_size
    &&& p.offset < file.file_size
    &&& p.size == (if file.file_size - p.offset < part_size {
        file.file_size - p.offset
    } else {
        part_size as int
    })
    &&& p.part_hash@ == part_hash_of(file.sha256@, p.offset, p.size)
    &&& !p.uploaded
}

/// Why a file cannot be planned: no name, or no part size.
pub open spec fn plan_error(file: FileDigest, part_size: u64) -> Option<ErrorView> {
    if file.file_name@.len() == 0 {
        Some(error_of(10002, empty_message("file_name"@)))
    } else if part_size == 0 {
        Some(error_of(10002, "part_size is zero"@))
    } else {
        None
    }
}

/// The number of parts uploaded.
pub open spec fn uploaded_count(s: Seq<UploadPart>) -> nat
    decreases s.len(),
{
    if s.len() == 0 {
        0
    } else {
        uploaded_count(s.drop_last()) + if s.last().uploaded {
            1nat
        } else {
            0nat
        }
    }
}

/// The bytes of the parts uploaded.
pub open spec fn uploaded_bytes(s: Seq<UploadPart>) -> nat
    decreases s.len(),
{
    if s.len() == 0 {
        0
    } else {
        uploaded_bytes(s.drop_last()) + if s.last().uploaded {
            s.last().size as nat
        } else {
            0nat
        }
    }
}

/// A prefix of the parts has no more uploaded bytes, nor parts, than the
/// whole.
proof fn lemma_uploaded_prefix(s: Seq<UploadPart>, n: int)
    requires
        0 <= n <= s.len(),
    ensures
        uploaded_bytes(s.take(n)) <= uploaded_bytes(s),
        uploaded_count(s.take(n)) <= uploaded_count(s),
    decreases s.len() - n,
{
    if n < s.len() {
        lemma_uploaded_prefix(s, n + 1);
        assert(s.take(n + 1).drop_last() =~= s.take(n));
    } else {
        assert(s.take(n) =~= s);
    }
}

/// How many parts a sign request asks for: the part count, at least one
/// and at most `DEFAULT_MAX_SIGN_PARTS`.
pub open spec fn spec_max_sign_parts(n: nat) -> u32 {
    if n == 0 {
        1
    } else if n < 20 {
        n as u32
    } else {
        20
    }
}

/// The error for more parts than a `u32` counts.
pub open spec fn part_count_overflow() -> ErrorView {
    error_of(10002, "part count exceeds u32 range"@)
}

fn max_sign_parts(part_count: usize) -> (r: Result<u32, OpenImError>)
    ensures
        r is Ok <==> part_count <= u32::MAX,
        r matches Err(e) ==> e@ == part_count_overflow(),
        r matches Ok(n) ==> n == spec_max_sign_parts(part_count as nat),
{
    if part_count > 0xffff_ffffusize {
        return Err(OpenImError::args("part count exceeds u32 range"));
    }
    let count = part_count as u32;
    let capped = if count < DEFAULT_MAX_SIGN_PARTS {
        count
    } else {
        DEFAULT_MAX_SIGN_PARTS
    };
    if capped < 1 {
        Ok(1)
    } else {
        Ok(capped)
    }
}

/// Texts joined with commas.
pub open spec fn joined(s: Seq<Seq<char>>) -> Seq<char>
    decreases s.len(),
{
    if s.len() == 0 {
        Seq::empty()
    } else if s.len() == 1 {
        s[0]
    } else {
        joined(s.drop_last()) + ","@ + s.last()
    }
}

/// The hashes of the parts, in order.
pub open spec fn hashes(parts: Seq<UploadPart>) -> Seq<Seq<char>> {
    parts.map_values(|p: UploadPart| p.part_hash@)
}

fn combined_part_hash(plan: &MultipartUploadPlan) -> (r: String)
    ensures
        r@ == joined(hashes(plan.parts@)),
{
    let mut out = String::new();
    let mut i: usize = 0;
    while i < plan.parts.len()
        invariant
            i <= plan.parts@.len(),
            out@ == joined(hashes(plan.parts@).take(i as int)),
        decreases plan.parts.len() - i,
    {
        let ghost h = hashes(plan.parts@);
        assert(h.take(i + 1).drop_last() =~= h.take(i as int));
        assert(h.take(i + 1).last() == plan.parts@[i as int].part_hash@);
        if i > 0 {
            out.append(",");
        } else {
            assert(h.take(1) =~= seq![h[0]]);
        }
        out.append(plan.parts[i].part_hash.as_str());
        i = i + 1;
    }
    assert(hashes(plan.parts@).take(i as int) =~= hashes(plan.parts@));
    out
}

fn copy_part(p: &UploadPart) -> (r: UploadPart)
    ensures
        r == *p,
{
    UploadPart {
        part_number: p.part_number,
        offset: p.offset,
        size: p.size,
        part_hash: p.part_hash.clone(),
        uploaded: p.uploaded,
    }
}

fn slice_contains(s: &[u32], x: u32) -> (r: bool)
    ensures
        r == s@.contains(x),
{
    let mut i: usize = 0;
    while i < s.len()
        invariant
            i <= s@.len(),
            forall|j: int| 0 <= j < i ==> s@[j] != x,
        decreases s.len() - i,
    {
        if s[i] == x {
            assert(s@[i as int] == x);
            return true;
        }
        i = i + 1;
    }
    false
}

/// Plans, requests and bookkeeping of multipart uploads.
pub struct FileTransferService;

impl FileTransferService {
    /// The part size the server's limit gives a file.
    pub fn part_size_from_limit(file: &FileDigest, limit: &ObjectPartLimit) -> (r: Result<
        u64,
        OpenImError,
    >)
        ensures
            r is Ok <==> part_size_result(*limit, file.file_size) is Ok,
            r matches Ok(n) ==> part_size_result(*limit, file.file_size) == Ok::<u64, ErrorView>(n),
            r matches Err(e) ==> part_size_result(*limit, file.file_size) == Err::<u64, ErrorView>(e@),
    {
        limit.part_size_for(file.file_size)
    }

    /// Cuts a file into parts of `part_size` bytes (the last one shorter),
    /// numbered from one, none uploaded.
    pub fn plan_multipart(file: FileDigest, part_size: u64) -> (r: Result<
        MultipartUploadPlan,
        OpenImError,
    >)
        requires
            plan_error(file, part_size) is None ==> file.file_size <= (u32::MAX - 1) * part_size,
        ensures
            r is Ok <==> plan_error(file, part_size) is None,
            r matches Err(e) ==> Some(e@) == plan_error(file, part_size),
            r matches Ok(p) ==> {
                &&& p.file == file
                &&& p.part_size == part_size
                &&& p.parts@.len() * part_size >= file.file_size
                &&& forall|i: int| 0 <= i < p.parts@.len() ==> planned_part(file, part_size, i, #[trigger] p.parts@[i])
            },
    {
        ensure_not_empty(file.file_name.as_str(), "file_name")?;
        if part_size == 0 {
            return Err(OpenImError::args("part_size is zero"));
        }
        let mut parts: Vec<UploadPart> = Vec::new();
        let mut offset: u64 = 0;
        let mut part_number: u32 = 1;
        while offset < file.file_size
            invariant
                part_size > 0,
                file.file_size <= (u32::MAX - 1) * part_size,
                parts@.len() + 1 == part_number,
                offset <= file.file_size,
                offset < file.file_size ==> offset == parts@.len() * part_size,
                offset == file.file_size ==> parts@.len() * part_size >= file.file_size,
                forall|i: int| 0 <= i < parts@.len() ==> planned_part(file, part_size, i, #[trigger] parts@[i]),
            decreases file.file_size - offset,
        {
            let ghost n = parts@.len() as int;
            let remaining = file.file_size - offset;
            let size = if remaining < part_size {
                remaining
            } else {
                part_size
            };
            let hash = part_hash(&file, offset, size);
            proof {
                assert(n * part_size < (u32::MAX - 1) * part_size);
                assert(n < u32::MAX - 1) by (nonlinear_arith)
                    requires
                        n * part_size < (u32::MAX - 1) * part_size,
                        part_size > 0,
                ;
                assert((n + 1) * part_size == n * part_size + part_size) by (nonlinear_arith);
            }
            parts.push(
                UploadPart { part_number, offset, size, part_hash: hash, uploaded: false },
            );
            offset = offset + size;
            part_number = part_number + 1;
        }
        Ok(MultipartUploadPlan { file, part_size, parts })
    }

    /// The request that opens a multipart upload of a plan.
    pub fn initiate_multipart_request(plan: &MultipartUploadPlan, object: &UploadObjectRequest) -> (r:
        Result<InitiateMultipartUploadRequest, OpenImError>)
        ensures
            r is Ok <==> plan.parts@.len() <= u32::MAX,
            r matches Err(e) ==> e@ == part_count_overflow(),
            r matches Ok(q) ==> {
                &&& q.hash@ == joined(hashes(plan.parts@))
                &&& q.size == plan.file.file_size
                &&& q.part_size == plan.part_size
                &&& q.max_parts == spec_max_sign_parts(plan.parts@.len())
                &&& q.cause@ == object.cause@
                &&& q.name@ == object.name@
                &&& q.content_type@ == object.content_type@
                &&& q.url_prefix@ == object.url_prefix@
            },
    {
        let hash = combined_part_hash(plan);
        let max_parts = max_sign_parts(plan.parts.len())?;
        Ok(
            InitiateMultipartUploadRequest {
                hash,
                size: plan.file.file_size,
                part_size: plan.part_size,
                max_parts,
                cause: object.cause.clone(),
                name: object.name.clone(),
                content_type: object.content_type.clone(),
                url_prefix: object.url_prefix.clone(),
            },
        )
    }

    /// The request that completes a multipart upload: the part hashes in
    /// order.
    pub fn complete_multipart_request(
        plan: &MultipartUploadPlan,
        object: &UploadObjectRequest,
        upload_id: &str,
    ) -> (r: CompleteMultipartUploadRequest)
        ensures
            r.upload_id@ == upload_id@,
            strs(r.parts@) == hashes(plan.parts@),
            r.name@ == object.name@,
            r.content_type@ == object.content_type@,
            r.cause@ == object.cause@,
            r.url_prefix@ == object.url_prefix@,
    {
        let mut parts: Vec<String> = Vec::new();
        let mut i: usize = 0;
        while i < plan.parts.len()
            invariant
                i <= plan.parts@.len(),
                strs(parts@) == hashes(plan.parts@).take(i as int),
            decreases plan.parts.len() - i,
        {
            let ghost before = parts@;
            parts.push(plan.parts[i].part_hash.clone());
            proof {
                assert(strs(parts@) =~= strs(before).push(plan.parts@[i as int].part_hash@));
                assert(hashes(plan.parts@).take(i + 1) =~= hashes(plan.parts@).take(i as int).push(
                    plan.parts@[i as int].part_hash@,
                ));
            }
            i = i + 1;
        }
        assert(hashes(plan.parts@).take(i as int) =~= hashes(plan.parts@));
        CompleteMultipartUploadRequest {
            upload_id: owned(upload_id),
            parts,
            name: object.name.clone(),
            content_type: object.content_type.clone(),
            cause: object.cause.clone(),
            url_prefix: object.url_prefix.clone(),
        }
    }

    /// The plan with exactly the listed parts marked uploaded.
    pub fn resume_plan(plan: MultipartUploadPlan, uploaded_parts: &[u32]) -> (r: MultipartUploadPlan)
        ensures
            r.file == plan.file,
            r.part_size == plan.part_size,
            r.parts@.len() == plan.parts@.len(),
            forall|i: int| 0 <= i < r.parts@.len() ==> #[trigger] r.parts@[i] == (UploadPart {
                uploaded: uploaded_parts@.contains(plan.parts@[i].part_number),
                ..plan.parts@[i]
            }),
    {
        let mut parts: Vec<UploadPart> = Vec::new();
        let mut i: usize = 0;
        while i < plan.parts.len()
            invariant
                i <= plan.parts@.len(),
                parts@.len() == i,
                forall|j: int| 0 <= j < i ==> #[trigger] parts@[j] == (UploadPart {
                    uploaded: uploaded_parts@.contains(plan.parts@[j].part_number),
                    ..plan.parts@[j]
                }),
            decreases plan.parts.len() - i,
        {
            let mut part = copy_part(&plan.parts[i]);
            part.uploaded = slice_contains(uploaded_parts, part.part_number);
            parts.push(part);
            i = i + 1;
        }
        MultipartUploadPlan { file: plan.file, part_size: plan.part_size, parts }
    }

    /// Marks the first part with the given number uploaded.
    pub fn mark_uploaded(plan: &mut MultipartUploadPlan, part_number: u32) -> (r: Result<
        (),
        OpenImError,
    >)
        ensures
            r is Err <==> forall|j: int| 0 <= j < old(plan).parts@.len() ==> #[trigger] old(plan).parts@[j].part_number != part_number,
            r matches Err(e) ==> e@ == error_of(10002, "part_number not found: "@ + decimal(part_number as nat))
                && *final(plan) == *old(plan),
            r is Ok ==> exists|i: int| {
                &&& 0 <= i < old(plan).parts@.len()
                &&& #[trigger] old(plan).parts@[i].part_number == part_number
                &&& forall|j: int| 0 <= j < i ==> #[trigger] old(plan).parts@[j].part_number != part_number
                &&& final(plan).parts@ == old(plan).parts@.update(i, UploadPart { uploaded: true, ..old(plan).parts@[i] })
                &&& final(plan).file == old(plan).file
                &&& final(plan).part_size == old(plan).part_size
            },
    {
        let mut i: usize = 0;
        while i < plan.parts.len()
            invariant
                i <= plan.parts@.len(),
                plan.parts@ == old(plan).parts@,
                *plan == *old(plan),
                forall|j: int| 0 <= j < i ==> #[trigger] plan.parts@[j].part_number != part_number,
            decreases plan.parts.len() - i,
        {
            if plan.parts[i].part_number == part_number {
                let mut part = copy_part(&plan.parts[i]);
                part.uploaded = true;
                plan.parts.set(i, part);
                return Ok(());
            }
            i = i + 1;
        }
        let mut message = owned("part_number not found: ");
        push_decimal(&mut message, part_number as u64);
        Err(OpenImError::with_message(ErrorCode::args(), message))
    }

    /// How much of a plan is uploaded.
    pub fn progress(plan: &MultipartUploadPlan) -> (r: UploadProgress)
        requires
            uploaded_bytes(plan.parts@) <= u64::MAX,
        ensures
            r.uploaded_bytes == uploaded_bytes(plan.parts@),
            r.total_bytes == plan.file.file_size,
            r.uploaded_parts == uploaded_count(plan.parts@),
            r.total_parts == plan.parts@.len(),
    {
        let mut count: usize = 0;
        let mut bytes: u64 = 0;
        let mut i: usize = 0;
        assert(plan.parts@.take(0) =~= Seq::<UploadPart>::empty());
        while i < plan.parts.len()
            invariant
                i <= plan.parts@.len(),
                uploaded_bytes(plan.parts@) <= u64::MAX,
                count == uploaded_count(plan.parts@.take(i as int)),
                bytes == uploaded_bytes(plan.parts@.take(i as int)),
                count <= i,
            decreases plan.parts.len() - i,
        {
            let ghost s = plan.parts@;
            assert(s.take(i + 1).drop_last() =~= s.take(i as int));
            assert(s.take(i + 1).last() == s[i as int]);
            proof {
                lemma_uploaded_prefix(s, i + 1);
            }
            if plan.parts[i].uploaded {
                count = count + 1;
                bytes = bytes + plan.parts[i].size;
            }
            i = i + 1;
        }
        assert(plan.parts@.take(i as int) =~= plan.parts@);
        UploadProgress {
            uploaded_bytes: bytes,
            total_bytes: plan.file.file_size,
            uploaded_parts: count,
            total_parts: plan.parts.len(),
        }
    }
}

/// Each key with its values, as plain text.
pub open spec fn kv_view(v: Seq<KeyValues>) -> Seq<(Seq<char>, Seq<Seq<char>>)> {
    v.map_values(|kv: KeyValues| (kv.key@, strs(kv.values@)))
}

/// Pairs of texts.
pub open spec fn pairs_view(v: Seq<(String, String)>) -> Seq<(Seq<char>, Seq<char>)> {
    v.map_values(|p: (String, String)| (p.0@, p.1@))
}

/// `l` with `key` set to `values`, keys in ascending order: an entry with
/// the key is replaced in place, else the new entry goes before the first
/// greater key.
pub open spec fn put_entry(
    l: Seq<(Seq<char>, Seq<Seq<char>>)>,
    key: Seq<char>,
    values: Seq<Seq<char>>,
) -> Seq<(Seq<char>, Seq<Seq<char>>)>
    decreases l.len(),
{
    if l.len() == 0 {
        seq![(key, values)]
    } else if l[0].0 == key {
        seq![(key, values)] + l.drop_first()
    } else if seq_lt(key, l[0].0) {
        seq![(key, values)] + l
    } else {
        seq![l[0]] + put_entry(l.drop_first(), key, values)
    }
}

/// `l` with each entry of `entries` set, one after the other.
pub open spec fn put_all(
    l: Seq<(Seq<char>, Seq<Seq<char>>)>,
    entries: Seq<(Seq<char>, Seq<Seq<char>>)>,
) -> Seq<(Seq<char>, Seq<Seq<char>>)>
    decreases entries.len(),
{
    if entries.len() == 0 {
        l
    } else {
        put_entry(put_all(l, entries.drop_last()), entries.last().0, entries.last().1)
    }
}

/// The values of the first entry with the key, if any.
pub open spec fn lookup_entry(l: Seq<(Seq<char>, Seq<Seq<char>>)>, key: Seq<char>) -> Option<
    Seq<Seq<char>>,
>
    decreases l.len(),
{
    if l.len() == 0 {
        None
    } else if l[0].0 == key {
        Some(l[0].1)
    } else {
        lookup_entry(l.drop_first(), key)
    }
}

/// Pairs grouped by key, keys in ascending order, each key's values in the
/// order they came.
pub open spec fn grouped(pairs: Seq<(Seq<char>, Seq<char>)>) -> Seq<(Seq<char>, Seq<Seq<char>>)>
    decreases pairs.len(),
{
    if pairs.len() == 0 {
        Seq::empty()
    } else {
        let l = grouped(pairs.drop_last());
        let key = pairs.last().0;
        let prior = match lookup_entry(l, key) {
            Some(vs) => vs,
            None => Seq::empty(),
        };
        put_entry(l, key, prior.push(pairs.last().1))
    }
}

/// Entries spread back into pairs: each key once per value, in order.
pub open spec fn flatten(l: Seq<(Seq<char>, Seq<Seq<char>>)>) -> Seq<(Seq<char>, Seq<char>)>
    decreases l.len(),
{
    if l.len() == 0 {
        Seq::empty()
    } else {
        let key = l.last().0;
        flatten(l.drop_last()) + l.last().1.map_values(|v: Seq<char>| (key, v))
    }
}

/// Setting a key after a run of entries that neither have it nor follow it
/// leaves the run in place.
proof fn lemma_put_skip(
    l: Seq<(Seq<char>, Seq<Seq<char>>)>,
    key: Seq<char>,
    values: Seq<Seq<char>>,
    p: int,
)
    requires
        0 <= p <= l.len(),
        forall|j: int| 0 <= j < p ==> #[trigger] l[j].0 != key && !seq_lt(key, l[j].0),
    ensures
        put_entry(l, key, values) == l.take(p) + put_entry(l.skip(p), key, values),
    decreases p,
{
    if p == 0 {
        assert(l.take(0) + l.skip(0) =~= l);
        assert(l.skip(0) =~= l);
        assert(l.take(0) =~= Seq::<(Seq<char>, Seq<Seq<char>>)>::empty());
    } else {
        let t = l.drop_first();
        assert forall|j: int| 0 <= j < p - 1 implies #[trigger] t[j].0 != key && !seq_lt(key, t[j].0) by {
            assert(t[j] == l[j + 1]);
        }
        assert(l[0].0 != key && !seq_lt(key, l[0].0));
        lemma_put_skip(t, key, values, p - 1);
        assert(t.skip(p - 1) =~= l.skip(p));
        assert(seq![l[0]] + t.take(p - 1) =~= l.take(p));
    }
}

/// The first entry with a key gives its values.
proof fn lemma_lookup_skip(l: Seq<(Seq<char>, Seq<Seq<char>>)>, key: Seq<char>, p: int)
    requires
        0 <= p <= l.len(),
        forall|j: int| 0 <= j < p ==> #[trigger] l[j].0 != key,
    ensures
        lookup_entry(l, key) == lookup_entry(l.skip(p), key),
    decreases p,
{
    if p == 0 {
        assert(l.skip(0) =~= l);
    } else {
        let t = l.drop_first();
        assert forall|j: int| 0 <= j < p - 1 implies #[trigger] t[j].0 != key by {
            assert(t[j] == l[j + 1]);
        }
        assert(l[0].0 != key);
        lemma_lookup_skip(t, key, p - 1);
        assert(t.skip(p - 1) =~= l.skip(p));
    }
}

fn copy_key_values(kv: &KeyValues) -> (r: KeyValues)
    ensures
        r.key@ == kv.key@,
        strs(r.values@) == strs(kv.values@),
{
    let mut values: Vec<String> = Vec::new();
    let mut i: usize = 0;
    while i < kv.values.len()
        invariant
            i <= kv.values@.len(),
            strs(values@) == strs(kv.values@).take(i as int),
        decreases kv.values.len() - i,
    {
        let ghost before = values@;
        values.push(kv.values[i].clone());
        proof {
            assert(strs(values@) =~= strs(before).push(kv.values@[i as int]@));
            assert(strs(kv.values@).take(i + 1) =~= strs(kv.values@).take(i as int).push(
                kv.values@[i as int]@,
            ));
        }
        i = i + 1;
    }
    assert(strs(kv.values@).take(i as int) =~= strs(kv.values@));
    KeyValues { key: kv.key.clone(), values }
}

/// Sets one entry of a key-ordered list.
fn put_values(target: &mut Vec<KeyValues>, entry: KeyValues)
    ensures
        kv_view(final(target)@) == put_entry(kv_view(old(target)@), entry.key@, strs(entry.values@)),
{
    let ghost l = kv_view(target@);
    let mut p: usize = 0;
    while p < target.len() && !str_eq(target[p].key.as_str(), entry.key.as_str()) && !str_before(
        entry.key.as_str(),
        target[p].key.as_str(),
    )
        invariant
            p <= target@.len(),
            l == kv_view(target@),
            forall|j: int| 0 <= j < p ==> #[trigger] l[j].0 != entry.key@ && !seq_lt(entry.key@, l[j].0),
        decreases target.len() - p,
    {
        p = p + 1;
    }
    proof {
        lemma_put_skip(l, entry.key@, strs(entry.values@), p as int);
    }
    let ghost view = (entry.key@, strs(entry.values@));
    if p < target.len() && str_eq(target[p].key.as_str(), entry.key.as_str()) {
        let ghost rest = l.skip(p as int);
        assert(rest[0].0 == entry.key@);
        target.set(p, entry);
        assert(kv_view(target@) =~= l.take(p as int) + (seq![view] + rest.drop_first()));
    } else {
        let ghost rest = l.skip(p as int);
        proof {
            if p < l.len() {
                assert(seq_lt(view.0, rest[0].0));
            }
        }
        target.insert(p, entry);
        assert(kv_view(target@) =~= l.take(p as int) + (seq![view] + rest));
    }
}

/// Sets each entry, one after the other.
fn apply_key_values(target: &mut Vec<KeyValues>, values: &[KeyValues])
    ensures
        kv_view(final(target)@) == put_all(kv_view(old(target)@), kv_view(values@)),
{
    let ghost start = kv_view(target@);
    let mut i: usize = 0;
    while i < values.len()
        invariant
            i <= values@.len(),
            kv_view(target@) == put_all(start, kv_view(values@).take(i as int)),
        decreases values.len() - i,
    {
        let ghost e = kv_view(values@);
        assert(e.take(i + 1).drop_last() =~= e.take(i as int));
        assert(e.take(i + 1).last() == e[i as int]);
        put_values(target, copy_key_values(&values[i]));
        i = i + 1;
    }
    assert(kv_view(values@).take(i as int) =~= kv_view(values@));
}

/// The query of a signed upload: the URL's own pairs grouped by key, then
/// the shared and the part's entries set over them, spread back into pairs
/// in key order.
pub fn merged_query(existing: &Vec<(String, String)>, shared: &[KeyValues], own: &[KeyValues]) -> (r:
    Vec<(String, String)>)
    ensures
        pairs_view(r@) == flatten(
            put_all(put_all(grouped(pairs_view(existing@)), kv_view(shared@)), kv_view(own@)),
        ),
{
    let mut map: Vec<KeyValues> = Vec::new();
    let mut i: usize = 0;
    assert(pairs_view(existing@).take(0) =~= Seq::<(Seq<char>, Seq<char>)>::empty());
    while i < existing.len()
        invariant
            i <= existing@.len(),
            kv_view(map@) == grouped(pairs_view(existing@).take(i as int)),
        decreases existing.len() - i,
    {
        let ghost pv = pairs_view(existing@);
        let ghost l = kv_view(map@);
        assert(pv.take(i + 1).drop_last() =~= pv.take(i as int));
        assert(pv.take(i + 1).last() == pv[i as int]);
        let key = &existing[i].0;
        let mut found: usize = 0;
        while found < map.len() && !str_eq(map[found].key.as_str(), key.as_str())
            invariant
                found <= map@.len(),
                l == kv_view(map@),
                forall|j: int| 0 <= j < found ==> #[trigger] l[j].0 != key@,
            decreases map.len() - found,
        {
            found = found + 1;
        }
        proof {
            lemma_lookup_skip(l, key@, found as int);
            if found < l.len() {
                assert(l.skip(found as int)[0] == l[found as int]);
                assert(lookup_entry(l, key@) == Some(l[found as int].1));
            } else {
                assert(l.skip(found as int) =~= Seq::<(Seq<char>, Seq<Seq<char>>)>::empty());
            }
        }
        let mut entry = if found < map.len() {
            copy_key_values(&map[found])
        } else {
            KeyValues { key: key.clone(), values: Vec::new() }
        };
        assert(entry.key@ == key@);
        let ghost prior = strs(entry.values@);
        entry.values.push(existing[i].1.clone());
        assert(strs(entry.values@) =~= prior.push(existing@[i as int].1@));
        let ghost full = strs(entry.values@);
        put_values(&mut map, entry);
        proof {
            let prior2 = match lookup_entry(l, pv[i as int].0) {
                Some(vs) => vs,
                None => Seq::empty(),
            };
            assert(prior2 == prior);
            assert(full == prior2.push(pv[i as int].1));
            assert(grouped(pv.take(i + 1)) == put_entry(l, pv[i as int].0, full));
        }
        i = i + 1;
    }
    assert(pairs_view(existing@).take(i as int) =~= pairs_view(existing@));
    apply_key_values(&mut map, shared);
    apply_key_values(&mut map, own);
    let mut out: Vec<(String, String)> = Vec::new();
    let mut k: usize = 0;
    while k < map.len()
        invariant
            k <= map@.len(),
            pairs_view(out@) == flatten(kv_view(map@).take(k as int)),
        decreases map.len() - k,
    {
        let ghost l = kv_view(map@);
        assert(l.take(k + 1).drop_last() =~= l.take(k as int));
        assert(l.take(k + 1).last() == l[k as int]);
        let ghost base = out@;
        let mut v: usize = 0;
        while v < map[k].values.len()
            invariant
                k < map@.len(),
                l == kv_view(map@),
                v <= map@[k as int].values@.len(),
                pairs_view(out@) == pairs_view(base) + l[k as int].1.take(v as int).map_values(
                    |x: Seq<char>| (l[k as int].0, x),
                ),
            decreases map@[k as int].values@.len() - v,
        {
            let ghost before = out@;
            out.push((map[k].key.clone(), map[k].values[v].clone()));
            proof {
                let key = l[k as int].0;
                assert(l[k as int].1[v as int] == map@[k as int].values@[v as int]@);
                assert(l[k as int].1.take(v + 1).map_values(|x: Seq<char>| (key, x)) =~= l[k as int].1.take(
                    v as int,
                ).map_values(|x: Seq<char>| (key, x)).push((key, l[k as int].1[v as int])));
                assert(pairs_view(out@) =~= pairs_view(before).push((key, l[k as int].1[v as int])));
            }
            v = v + 1;
        }
        assert(l[k as int].1.take(v as int) =~= l[k as int].1);
        k = k + 1;
    }
    assert(kv_view(map@).take(k as int) =~= kv_view(map@));
    out
}

/// The headers of a signed upload: the shared entries, then the part's,
/// set in key order.
pub fn merged_headers(shared: &[KeyValues], own: &[KeyValues]) -> (r: Vec<KeyValues>)
    ensures
        kv_view(r@) == put_all(put_all(Seq::empty(), kv_view(shared@)), kv_view(own@)),
{
    let mut map: Vec<KeyValues> = Vec::new();
    assert(kv_view(map@) =~= Seq::<(Seq<char>, Seq<Seq<char>>)>::empty());
    apply_key_values(&mut map, shared);
    apply_key_values(&mut map, own);
    map
}

/// What `url::Url::parse` makes of a text: the decoded query pairs of the
/// URL, in order, or the text of the parse error.
pub uninterp spec fn url_query_pairs(raw: Seq<char>) -> Result<Seq<(Seq<char>, Seq<char>)>, Seq<char>>;

/// The text of the URL parsed from `raw` with its query replaced by the
/// given pairs.
pub uninterp spec fn url_with_query(raw: Seq<char>, pairs: Seq<(Seq<char>, Seq<char>)>) -> Seq<char>;

/// Calls `url::Url::parse` on `raw`; on success reads its query with
/// `Url::query_pairs`, else renders the `url::ParseError`. Trusted: the
/// result is `url_query_pairs` of the text, nothing more is claimed.
#[verifier::external_body]
fn parse_query_pairs(raw: &str) -> (r: Result<Vec<(String, String)>, String>)
    ensures
        r matches Ok(v) ==> (url_query_pairs(raw@) matches Ok(p) && p == pairs_view(v@)),
        r matches Err(e) ==> (url_query_pairs(raw@) matches Err(t) && t == e@),
{
    match url::Url::parse(raw) {
        Ok(url) => {
            let mut pairs = Vec::new();
            for (key, value) in url.query_pairs() {
                pairs.push((key.into_owned(), value.into_owned()));
            }
            Ok(pairs)
        },
        Err(err) => Err(err.to_string()),
    }
}

/// Calls `url::Url::parse` on `raw`, clears its query through
/// `Url::query_pairs_mut`, appends each pair with `append_pair` and renders
/// the URL with `to_string`. Trusted: the result is `url_with_query` of the
/// text and the pairs; the parse is known to succeed.
#[verifier::external_body]
fn render_with_query(raw: &str, pairs: &Vec<(String, String)>) -> (r: String)
    requires
        url_query_pairs(raw@) is Ok,
    ensures
        r@ == url_with_query(raw@, pairs_view(pairs@)),
{
    match url::Url::parse(raw) {
        Ok(mut url) => {
            {
                let mut query = url.query_pairs_mut();
                query.clear();
                for (key, value) in pairs {
                    query.append_pair(key, value);
                }
            }
            url.to_string()
        },
        Err(err) => err.to_string(),
    }
}

/// The URL a part is uploaded to: its own, else the shared one.
pub open spec fn signed_url_of(sign: AuthSignParts, part: SignedPart) -> Seq<char> {
    if part.url@.len() == 0 {
        sign.url@
    } else {
        part.url@
    }
}

/// Why a part's upload request cannot be built: no URL, or one that does
/// not parse.
pub open spec fn put_request_error(sign: AuthSignParts, part: SignedPart) -> Option<ErrorView> {
    let raw = signed_url_of(sign, part);
    if raw.len() == 0 {
        Some(error_of(10002, empty_message("url"@)))
    } else {
        match url_query_pairs(raw) {
            Err(text) => Some(error_of(10002, "signed upload url is invalid: "@ + text)),
            Ok(_) => None,
        }
    }
}

/// `r` is the upload request for a part: a PUT of `content_length` bytes to
/// the part's URL with the merged query, and the merged headers.
pub open spec fn put_request_for(
    sign: AuthSignParts,
    part: SignedPart,
    content_length: u64,
    r: SignedUploadPartRequest,
) -> bool {
    let raw = signed_url_of(sign, part);
    &&& url_query_pairs(raw) matches Ok(existing) && r.url@ == url_with_query(
        raw,
        flatten(put_all(put_all(grouped(existing), kv_view(sign.query@)), kv_view(part.query@))),
    )
    &&& r.part_number == part.part_number
    &&& r.method@ == "PUT"@
    &&& kv_view(r.headers@) == put_all(put_all(Seq::empty(), kv_view(sign.header@)), kv_view(part.header@))
    &&& r.content_length == content_length
}

/// `r` is what building the request for a part gives.
pub open spec fn put_request_outcome(
    sign: AuthSignParts,
    part: SignedPart,
    content_length: u64,
    r: Result<SignedUploadPartRequest, OpenImError>,
) -> bool {
    match r {
        Err(e) => put_request_error(sign, part) == Some(e@),
        Ok(q) => put_request_error(sign, part) is None && put_request_for(sign, part, content_length, q),
    }
}

fn build_signed_put_request(sign: &AuthSignParts, part: &SignedPart, content_length: u64) -> (r:
    Result<SignedUploadPartRequest, OpenImError>)
    ensures
        put_request_outcome(*sign, *part, content_length, r),
{
    let raw_url: &str = if part.url.as_str().is_empty() {
        sign.url.as_str()
    } else {
        part.url.as_str()
    };
    ensure_not_empty(raw_url, "url")?;
    let existing = match parse_query_pairs(raw_url) {
        Ok(pairs) => pairs,
        Err(text) => {
            let message = concat2("signed upload url is invalid: ", text.as_str());
            return Err(OpenImError::with_message(ErrorCode::args(), message));
        },
    };
    let query = merged_query(&existing, sign.query.as_slice(), part.query.as_slice());
    let url = render_with_query(raw_url, &query);
    let headers = merged_headers(sign.header.as_slice(), part.header.as_slice());
    Ok(SignedUploadPartRequest { part_number: part.part_number, method: "PUT", url, headers, content_length })
}

/// `i` is the first signed part with the given number.
pub open spec fn first_signed(parts: Seq<SignedPart>, part_number: u32, i: int) -> bool {
    &&& 0 <= i < parts.len()
    &&& parts[i].part_number == part_number
    &&& forall|j: int| 0 <= j < i ==> #[trigger] parts[j].part_number != part_number
}

/// Whether some signed part has the number.
pub open spec fn signs_part(sign: AuthSignParts, part_number: u32) -> bool {
    exists|j: int| 0 <= j < sign.parts@.len() && #[trigger] sign.parts@[j].part_number == part_number
}

impl AuthSignParts {
    pub fn contains_part(&self, part_number: u32) -> (r: bool)
        ensures
            r == signs_part(*self, part_number),
    {
        let mut i: usize = 0;
        while i < self.parts.len()
            invariant
                i <= self.parts@.len(),
                forall|j: int| 0 <= j < i ==> #[trigger] self.parts@[j].part_number != part_number,
            decreases self.parts.len() - i,
        {
            if self.parts[i].part_number == part_number {
                return true;
            }
            i = i + 1;
        }
        false
    }

    /// The upload request for a part: none when the part is not signed,
    /// else the request built from the first sign of it.
    pub fn build_put_request(&self, part_number: u32, content_length: u64) -> (r: Option<
        Result<SignedUploadPartRequest, OpenImError>,
    >)
        ensures
            r is None <==> !signs_part(*self, part_number),
            r matches Some(b) ==> exists|i: int|
                first_signed(self.parts@, part_number, i) && put_request_outcome(
                    *self,
                    self.parts@[i],
                    content_length,
                    b,
                ),
    {
        let mut i: usize = 0;
        while i < self.parts.len()
            invariant
                i <= self.parts@.len(),
                forall|j: int| 0 <= j < i ==> #[trigger] self.parts@[j].part_number != part_number,
            decreases self.parts.len() - i,
        {
            if self.parts[i].part_number == part_number {
                let built = build_signed_put_request(self, &self.parts[i], content_length);
                assert(first_signed(self.parts@, part_number, i as int));
                return Some(built);
            }
            i = i + 1;
        }
        None
    }
}

/// The part numbers one sign request asks for: from `part_number` on, at
/// most `batch` of them (at least one), none past `part_count`.
pub open spec fn sign_batch(part_number: u32, batch: u32, part_count: u32) -> Seq<u32> {
    let step = if batch == 0 {
        0
    } else {
        batch - 1
    };
    let reach = if part_number + step > u32::MAX {
        u32::MAX as int
    } else {
        part_number + step
    };
    let end = if reach < part_count {
        reach
    } else {
        part_count as int
    };
    Seq::new(
        if end >= part_number {
            (end - part_number + 1) as nat
        } else {
            0
        },
        |i: int| (part_number + i) as u32,
    )
}

/// The error for a part number out of range.
pub open spec fn invalid_part_number() -> ErrorView {
    error_of(10002, "invalid part_number"@)
}

/// The error for a sign that does not cover the part asked for.
pub open spec fn part_sign_invalid() -> ErrorView {
    error_of(10006, "server part sign invalid"@)
}

/// `r` is what the sign gives for a part: no sign of it is an internal
/// error, else the request built from its first sign.
pub open spec fn signed_outcome(
    sign: AuthSignParts,
    part_number: u32,
    content_length: u64,
    r: Result<SignedUploadPartRequest, OpenImError>,
) -> bool {
    if signs_part(sign, part_number) {
        exists|i: int|
            first_signed(sign.parts@, part_number, i) && put_request_outcome(
                sign,
                sign.parts@[i],
                content_length,
                r,
            )
    } else {
        r matches Err(e) && e@ == part_sign_invalid()
    }
}

/// The state of one multipart upload: its id, part size and count, how
/// many parts to sign at once, and the signs it holds.
pub struct MultipartUploadSession {
    upload_id: String,
    part_size: u64,
    part_count: u32,
    batch_sign_count: u32,
    sign: AuthSignParts,
    expire_time: i64,
}

/// Why a session cannot be opened.
pub open spec fn session_error(upload: ObjectUploadInfo, part_count: u32) -> Option<ErrorView> {
    if upload.upload_id@.len() == 0 {
        Some(error_of(10002, empty_message("upload_id"@)))
    } else if upload.part_size == 0 {
        Some(error_of(10002, "upload part_size is zero"@))
    } else if part_count == 0 {
        Some(error_of(10002, "part_count is zero"@))
    } else {
        None
    }
}

impl MultipartUploadSession {
    pub closed spec fn spec_upload_id(&self) -> Seq<char> {
        self.upload_id@
    }

    pub closed spec fn spec_part_size(&self) -> u64 {
        self.part_size
    }

    pub closed spec fn spec_part_count(&self) -> u32 {
        self.part_count
    }

    pub closed spec fn spec_batch_sign_count(&self) -> u32 {
        self.batch_sign_count
    }

    pub closed spec fn spec_sign(&self) -> AuthSignParts {
        self.sign
    }

    pub closed spec fn spec_expire_time(&self) -> i64 {
        self.expire_time
    }

    /// A session for an upload of `part_count` parts, signing at least one
    /// part at a time.
    pub fn new(upload: ObjectUploadInfo, part_count: u32, batch_sign_count: u32) -> (r: Result<
        MultipartUploadSession,
        OpenImError,
    >)
        ensures
            r is Ok <==> session_error(upload, part_count) is None,
            r matches Err(e) ==> Some(e@) == session_error(upload, part_count),
            r matches Ok(s) ==> {
                &&& s.spec_upload_id() == upload.upload_id@
                &&& s.spec_part_size() == upload.part_size
                &&& s.spec_part_count() == part_count
                &&& s.spec_batch_sign_count() == (if batch_sign_count < 1 {
                    1
                } else {
                    batch_sign_count
                })
                &&& s.spec_sign() == upload.sign
                &&& s.spec_expire_time() == upload.expire_time
            },
    {
        ensure_not_empty(upload.upload_id.as_str(), "upload_id")?;
        if upload.part_size == 0 {
            return Err(OpenImError::args("upload part_size is zero"));
        }
        if part_count == 0 {
            return Err(OpenImError::args("part_count is zero"));
        }
        let batch = if batch_sign_count < 1 {
            1
        } else {
            batch_sign_count
        };
        Ok(
            MultipartUploadSession {
                upload_id: upload.upload_id,
                part_size: upload.part_size,
                part_count,
                batch_sign_count: batch,
                sign: upload.sign,
                expire_time: upload.expire_time,
            },
        )
    }

    pub fn upload_id(&self) -> (r: &str)
        ensures
            r@ == self.spec_upload_id(),
    {
        self.upload_id.as_str()
    }

    pub fn part_size(&self) -> (r: u64)
        ensures
            r == self.spec_part_size(),
    {
        self.part_size
    }

    pub fn expire_time(&self) -> (r: i64)
        ensures
            r == self.spec_expire_time(),
    {
        self.expire_time
    }

    /// The part numbers to sign when `part_number` has no sign.
    fn next_part_numbers(&self, part_number: u32) -> (r: Vec<u32>)
        ensures
            r@ == sign_batch(part_number, self.batch_sign_count, self.part_count),
    {
        let step = self.batch_sign_count.saturating_sub(1);
        let reach = part_number.saturating_add(step);
        let end = if reach < self.part_count {
            reach
        } else {
            self.part_count
        };
        let mut out: Vec<u32> = Vec::new();
        let mut k: u64 = part_number as u64;
        while k <= end as u64
            invariant
                part_number <= k,
                k <= end + 1 || k == part_number,
                end <= u32::MAX,
                out@ == Seq::new((k - part_number) as nat, |i: int| (part_number + i) as u32),
            decreases end + 1 - k,
        {
            out.push(k as u32);
            assert(out@ =~= Seq::new((k + 1 - part_number) as nat, |i: int| (part_number + i) as u32));
            k = k + 1;
        }
        assert(out@ =~= sign_batch(part_number, self.batch_sign_count, self.part_count));
        out
    }

    /// The sign request for a part without a sign: this upload, and the
    /// batch of part numbers from it.
    pub fn sign_request(&self, part_number: u32) -> (r: AuthSignRequest)
        ensures
            r.upload_id@ == self.spec_upload_id(),
            r.part_numbers@ == sign_batch(
                part_number,
                self.spec_batch_sign_count(),
                self.spec_part_count(),
            ),
    {
        AuthSignRequest {
            upload_id: self.upload_id.clone(),
            part_numbers: self.next_part_numbers(part_number),
        }
    }

    /// The upload request for a part; a part without a sign is signed first,
    /// with its batch, through the API.
    pub fn signed_part_request<A: ObjectStorageApi + ?Sized>(
        &mut self,
        api: &mut A,
        part_number: u32,
        content_length: u64,
    ) -> (r: Result<SignedUploadPartRequest, OpenImError>)
        ensures
            ({
                let invalid = part_number == 0 || part_number > old(self).spec_part_count();
                &&& invalid ==> (r matches Err(e) && e@ == invalid_part_number() && *final(self)
                    == *old(self))
                &&& final(self).spec_upload_id() == old(self).spec_upload_id()
                &&& final(self).spec_part_size() == old(self).spec_part_size()
                &&& final(self).spec_part_count() == old(self).spec_part_count()
                &&& final(self).spec_batch_sign_count() == old(self).spec_batch_sign_count()
                &&& final(self).spec_expire_time() == old(self).spec_expire_time()
                &&& !invalid && signs_part(old(self).spec_sign(), part_number) ==> (
                final(self).spec_sign() == old(self).spec_sign() && signed_outcome(
                    old(self).spec_sign(),
                    part_number,
                    content_length,
                    r,
                ))
                &&& !invalid ==> ((r is Err && final(self).spec_sign() == old(self).spec_sign())
                    || signed_outcome(final(self).spec_sign(), part_number, content_length, r))
            }),
    {
        if part_number == 0 || part_number > self.part_count {
            return Err(OpenImError::args("invalid part_number"));
        }
        if !self.sign.contains_part(part_number) {
            let request = self.sign_request(part_number);
            let fresh = api.auth_sign(&request)?;
            self.sign = fresh;
        }
        match self.sign.build_put_request(part_number, content_length) {
            Some(built) => built,
            None => Err(OpenImError::sdk_internal("server part sign invalid")),
        }
    }
}

/// A prepared upload: the object exists already, or a session to upload it.
pub enum PreparedMultipartUpload {
    AlreadyUploaded { url: String },
    Upload(MultipartUploadSession),
}

/// The error for a server part size other than the plan's.
pub open spec fn part_size_mismatch(expected: u64, got: u64) -> ErrorView {
    error_of(
        10002,
        "part fileSize not match, expect "@ + decimal(expected as nat) + ", got "@ + decimal(got as nat),
    )
}

/// Why the server's answer to an initiate request gives no upload.
pub open spec fn prepare_error(plan: MultipartUploadPlan, response: InitiateMultipartUploadResponse) -> Option<
    ErrorView,
> {
    match response.upload {
        None => if response.url@.len() == 0 {
            Some(error_of(10002, empty_message("url"@)))
        } else {
            None
        },
        Some(upload) => if upload.part_size != plan.part_size {
            Some(part_size_mismatch(plan.part_size, upload.part_size))
        } else if plan.parts@.len() > u32::MAX {
            Some(part_count_overflow())
        } else {
            session_error(upload, plan.parts@.len() as u32)
        },
    }
}

/// The error for a receipt of another part.
pub open spec fn part_number_mismatch(expected: u32, got: u32) -> ErrorView {
    error_of(
        10002,
        "uploaded part_number mismatch: expected "@ + decimal(expected as nat) + ", got "@ + decimal(
            got as nat,
        ),
    )
}

/// Accepts a receipt only for the part that was uploaded.
pub fn check_uploaded_part(expected_part_number: u32, uploaded: UploadedPart) -> (r: Result<
    UploadedPart,
    OpenImError,
>)
    ensures
        r is Ok <==> uploaded.part_number == expected_part_number,
        r matches Ok(u) ==> u == uploaded,
        r matches Err(e) ==> e@ == part_number_mismatch(expected_part_number, uploaded.part_number),
{
    if uploaded.part_number != expected_part_number {
        let mut message = owned("uploaded part_number mismatch: expected ");
        push_decimal(&mut message, expected_part_number as u64);
        message.append(", got ");
        push_decimal(&mut message, uploaded.part_number as u64);
        return Err(OpenImError::with_message(ErrorCode::args(), message));
    }
    Ok(uploaded)
}

/// The numbers of the parts not yet uploaded, in order.
pub open spec fn pending_numbers(s: Seq<UploadPart>) -> Seq<u32>
    decreases s.len(),
{
    if s.len() == 0 {
        Seq::empty()
    } else {
        pending_numbers(s.drop_last()) + if s.last().uploaded {
            Seq::empty()
        } else {
            seq![s.last().part_number]
        }
    }
}

/// The bytes of all parts.
pub open spec fn all_bytes(s: Seq<UploadPart>) -> nat
    decreases s.len(),
{
    if s.len() == 0 {
        0
    } else {
        all_bytes(s.drop_last()) + s.last().size as nat
    }
}

/// A part with its uploaded mark cleared.
pub open spec fn unmarked(p: UploadPart) -> UploadPart {
    UploadPart { uploaded: false, ..p }
}

proof fn lemma_planned_prefix_bytes(file: FileDigest, part_size: u64, parts: Seq<UploadPart>, n: int)
    requires
        part_size > 0,
        0 <= n <= parts.len(),
        forall|i: int|
            0 <= i < parts.len() ==> planned_part(
                file,
                part_size,
                i,
                unmarked(#[trigger] parts[i]),
            ),
    ensures
        all_bytes(parts.take(n)) == if n * part_size <= file.file_size {
            n * part_size
        } else {
            file.file_size as int
        },
    decreases n,
{
    if n > 0 {
        lemma_planned_prefix_bytes(file, part_size, parts, n - 1);
        assert(parts.take(n).drop_last() =~= parts.take(n - 1));
        assert(planned_part(file, part_size, n - 1, unmarked(parts[n - 1])));
        assert((n - 1) * part_size + part_size == n * part_size) by (nonlinear_arith);
    } else {
        assert(parts.take(0) =~= Seq::<UploadPart>::empty());
    }
}

/// The parts of a plan tile the file: whichever of them are marked
/// uploaded, their sizes add up to the file's size.
pub proof fn law_plan_parts_cover_file(file: FileDigest, part_size: u64, parts: Seq<UploadPart>)
    requires
        part_size > 0,
        parts.len() * part_size >= file.file_size,
        forall|i: int|
            0 <= i < parts.len() ==> planned_part(
                file,
                part_size,
                i,
                unmarked(#[trigger] parts[i]),
            ),
    ensures
        all_bytes(parts) == file.file_size,
{
    lemma_planned_prefix_bytes(file, part_size, parts, parts.len() as int);
    assert(parts.take(parts.len() as int) =~= parts);
}

/// An upload that went through leaves complete progress: once every
/// missing part of a plan is uploaded, the uploaded bytes are the file's
/// size and every part counts as uploaded.
pub proof fn law_finished_upload_is_complete(
    file: FileDigest,
    part_size: u64,
    parts: Seq<UploadPart>,
    progress: UploadProgress,
)
    requires
        part_size > 0,
        parts.len() * part_size >= file.file_size,
        forall|i: int|
            0 <= i < parts.len() ==> planned_part(
                file,
                part_size,
                i,
                unmarked(#[trigger] parts[i]),
            ),
        progress.uploaded_bytes == all_bytes(parts),
        progress.total_bytes == file.file_size,
        progress.uploaded_parts == parts.len(),
        progress.total_parts == parts.len(),
    ensures
        progress.uploaded_bytes == progress.total_bytes && progress.uploaded_parts == progress.total_parts,
{
    law_plan_parts_cover_file(file, part_size, parts);
}

/// `t` is `s` with the parts before `n` marked uploaded.
pub open spec fn marked_before(s: Seq<UploadPart>, t: Seq<UploadPart>, n: int) -> bool {
    &&& t.len() == s.len()
    &&& forall|j: int| 0 <= j < s.len() ==> #[trigger] t[j] == (UploadPart {
        uploaded: s[j].uploaded || j < n,
        ..s[j]
    })
}

/// With every part uploaded, the uploaded bytes and parts are all of them.
proof fn lemma_all_uploaded(s: Seq<UploadPart>)
    requires
        forall|j: int| 0 <= j < s.len() ==> #[trigger] s[j].uploaded,
    ensures
        uploaded_bytes(s) == all_bytes(s),
        uploaded_count(s) == s.len(),
    decreases s.len(),
{
    if s.len() > 0 {
        lemma_all_uploaded(s.drop_last());
    }
}

/// Marking parts uploaded keeps the total of all bytes.
proof fn lemma_all_bytes_marked(s: Seq<UploadPart>, t: Seq<UploadPart>, n: int)
    requires
        marked_before(s, t, n),
    ensures
        all_bytes(t) == all_bytes(s),
    decreases s.len(),
{
    if s.len() > 0 {
        let s2 = s.drop_last();
        let t2 = t.drop_last();
        assert(marked_before(s2, t2, n)) by {
            assert forall|j: int| 0 <= j < s2.len() implies #[trigger] t2[j] == (UploadPart {
                uploaded: s2[j].uploaded || j < n,
                ..s2[j]
            }) by {
                assert(t[j] == t2[j]);
            }
        }
        lemma_all_bytes_marked(s2, t2, n);
        assert(t.last() == t[t.len() - 1]);
    }
}

impl FileTransferService {
    /// Opens a multipart upload of a plan: asks the server to initiate it,
    /// then reads the answer with `prepare_from_response`.
    pub fn prepare_multipart_upload(
        plan: &MultipartUploadPlan,
        object: &UploadObjectRequest,
        api: &mut dyn ObjectStorageApi,
    ) -> (r: Result<PreparedMultipartUpload, OpenImError>)
        ensures
            plan.parts@.len() > u32::MAX ==> (r matches Err(e) && e@ == part_count_overflow()),
            r matches Ok(PreparedMultipartUpload::AlreadyUploaded { url }) ==> url@.len() > 0,
            r matches Ok(PreparedMultipartUpload::Upload(s)) ==> {
                &&& s.spec_part_size() == plan.part_size
                &&& s.spec_part_count() == plan.parts@.len()
                &&& s.spec_batch_sign_count() == spec_max_sign_parts(plan.parts@.len())
            },
    {
        let request = Self::initiate_multipart_request(plan, object)?;
        let response = api.initiate_multipart_upload(&request)?;
        Self::prepare_from_response(plan, request.max_parts, response)
    }

    /// What the server's answer to an initiate request gives: the object's
    /// URL when it exists already, else a session for the plan's parts.
    pub fn prepare_from_response(
        plan: &MultipartUploadPlan,
        max_parts: u32,
        response: InitiateMultipartUploadResponse,
    ) -> (r: Result<PreparedMultipartUpload, OpenImError>)
        ensures
            r is Ok <==> prepare_error(*plan, response) is None,
            r matches Err(e) ==> Some(e@) == prepare_error(*plan, response),
            r matches Ok(PreparedMultipartUpload::AlreadyUploaded { url }) ==> response.upload is None
                && url@ == response.url@,
            r matches Ok(PreparedMultipartUpload::Upload(s)) ==> response.upload matches Some(upload)
                && s.spec_upload_id() == upload.upload_id@ && s.spec_part_size() == upload.part_size
                && s.spec_part_count() == plan.parts@.len() && s.spec_batch_sign_count() == (if max_parts
                < 1 {
                1
            } else {
                max_parts
            }) && s.spec_sign() == upload.sign && s.spec_expire_time() == upload.expire_time,
    {
        match response.upload {
            None => {
                ensure_not_empty(response.url.as_str(), "url")?;
                Ok(PreparedMultipartUpload::AlreadyUploaded { url: response.url })
            },
            Some(upload) => {
                if upload.part_size != plan.part_size {
                    let mut message = owned("part fileSize not match, expect ");
                    push_decimal(&mut message, plan.part_size);
                    message.append(", got ");
                    push_decimal(&mut message, upload.part_size);
                    return Err(OpenImError::with_message(ErrorCode::args(), message));
                }
                if plan.parts.len() > 0xffff_ffffusize {
                    return Err(OpenImError::args("part count exceeds u32 range"));
                }
                let session = MultipartUploadSession::new(upload, plan.parts.len() as u32, max_parts)?;
                Ok(PreparedMultipartUpload::Upload(session))
            },
        }
    }

    /// Uploads each part not yet uploaded, in order, through the client,
    /// marking it uploaded once the client's receipt names it; stops at the
    /// first failure.
    pub fn upload_missing_parts(plan: &mut MultipartUploadPlan, client: &mut dyn FileUploadClient) -> (r:
        Result<UploadOutcome, OpenImError>)
        requires
            all_bytes(old(plan).parts@) <= u64::MAX,
        ensures
            final(plan).file == old(plan).file,
            final(plan).part_size == old(plan).part_size,
            exists|n: int| 0 <= n <= old(plan).parts@.len() && marked_before(old(plan).parts@, final(plan).parts@, n),
            (forall|j: int| 0 <= j < old(plan).parts@.len() ==> #[trigger] old(plan).parts@[j].uploaded) ==> r is Ok,
            r is Err ==> exists|n: int| 0 <= n < old(plan).parts@.len() && !(#[trigger] old(plan).parts@[n]).uploaded
                && marked_before(old(plan).parts@, final(plan).parts@, n),
            r matches Ok(o) ==> {
                &&& marked_before(old(plan).parts@, final(plan).parts@, old(plan).parts@.len() as int)
                &&& o.uploaded_parts@.map_values(|u: UploadedPart| u.part_number) == pending_numbers(old(plan).parts@)
                &&& o.progress.uploaded_bytes == all_bytes(old(plan).parts@)
                &&& o.progress.total_bytes == old(plan).file.file_size
                &&& o.progress.uploaded_parts == old(plan).parts@.len()
                &&& o.progress.total_parts == old(plan).parts@.len()
            },
    {
        let ghost start = plan.parts@;
        let mut uploaded_parts: Vec<UploadedPart> = Vec::new();
        let mut i: usize = 0;
        assert(start.take(0) =~= Seq::<UploadPart>::empty());
        assert(marked_before(start, plan.parts@, 0));
        while i < plan.parts.len()
            invariant
                plan.parts@.len() == start.len(),
                i <= start.len(),
                plan.file == old(plan).file,
                plan.part_size == old(plan).part_size,
                start == old(plan).parts@,
                marked_before(start, plan.parts@, i as int),
                uploaded_parts@.map_values(|u: UploadedPart| u.part_number) == pending_numbers(start.take(i as int)),
            decreases start.len() - i,
        {
            assert(start.take(i + 1).drop_last() =~= start.take(i as int));
            assert(start.take(i + 1).last() == start[i as int]);
            if !plan.parts[i].uploaded {
                let part = copy_part(&plan.parts[i]);
                proof {
                    assert(plan.parts@[i as int] == start[i as int]);
                    assert(!start[i as int].uploaded);
                }
                let receipt = match client.upload_part(&plan.file, &part) {
                    Ok(u) => u,
                    Err(e) => {
                        return Err(e);
                    },
                };
                let accepted = match check_uploaded_part(part.part_number, receipt) {
                    Ok(u) => u,
                    Err(e) => {
                        return Err(e);
                    },
                };
                let mut done = part;
                done.uploaded = true;
                plan.parts.set(i, done);
                let ghost before = uploaded_parts@;
                uploaded_parts.push(accepted);
                assert(uploaded_parts@.map_values(|u: UploadedPart| u.part_number) =~= before.map_values(
                    |u: UploadedPart| u.part_number,
                ).push(start[i as int].part_number));
            } else {
                assert(uploaded_parts@.map_values(|u: UploadedPart| u.part_number) =~= pending_numbers(
                    start.take(i + 1),
                ));
            }
            i = i + 1;
        }
        assert(start.take(i as int) =~= start);
        proof {
            lemma_all_uploaded(plan.parts@);
            lemma_all_bytes_marked(start, plan.parts@, i as int);
        }
        let progress = Self::progress(plan);
        Ok(UploadOutcome { uploaded_parts, progress })
    }
}

/// Uploads parts through signed PUT requests: signs are fetched through
/// the object storage API as parts need them.
pub struct SignedMultipartUploadClient<'a, H, A: ObjectStorageApi + ?Sized> {
    api: &'a mut A,
    http: H,
    session: MultipartUploadSession,
}

impl<'a, H, A: ObjectStorageApi + ?Sized> SignedMultipartUploadClient<'a, H, A> {
    pub closed spec fn spec_session(&self) -> MultipartUploadSession {
        self.session
    }

    pub fn new(api: &'a mut A, http: H, session: MultipartUploadSession) -> (r:
        SignedMultipartUploadClient<'a, H, A>)
        ensures
            r.spec_session() == session,
    {
        SignedMultipartUploadClient { api, http, session }
    }

    pub fn session(&self) -> (r: &MultipartUploadSession)
        ensures
            *r == self.spec_session(),
    {
        &self.session
    }
}

impl<'a, H: HttpUploadClient, A: ObjectStorageApi + ?Sized> FileUploadClient for SignedMultipartUploadClient<
    'a,
    H,
    A,
> {
    /// Signs the part if its sign is missing, PUTs it and checks the
    /// receipt's part number.
    fn upload_part(&mut self, file: &FileDigest, part: &UploadPart) -> (r: Result<UploadedPart, OpenImError>)
        ensures
            ({
                let before = old(self).spec_session();
                let after = final(self).spec_session();
                &&& (part.part_number == 0 || part.part_number > before.spec_part_count()) ==> (r matches Err(e)
                    && e@ == invalid_part_number() && after == before)
                &&& after.spec_upload_id() == before.spec_upload_id()
                &&& after.spec_part_size() == before.spec_part_size()
                &&& after.spec_part_count() == before.spec_part_count()
                &&& after.spec_batch_sign_count() == before.spec_batch_sign_count()
                &&& after.spec_expire_time() == before.spec_expire_time()
                &&& r matches Ok(u) ==> u.part_number == part.part_number
            }),
    {
        let request = self.session.signed_part_request(self.api, part.part_number, part.size)?;
        let uploaded = self.http.put_part(&request)?;
        check_uploaded_part(part.part_number, uploaded)
    }
}

} // verus!

use openim::domain::file::{
    check_uploaded_part, AuthSignParts, AuthSignRequest, CompleteMultipartUploadRequest,
    CompleteMultipartUploadResponse, FileDigest, FileTransferService, FileUploadClient,
    HttpUploadClient, InitiateMultipartUploadRequest, InitiateMultipartUploadResponse, KeyValues,
    ObjectPartLimit, ObjectStorageApi, ObjectUploadInfo, PreparedMultipartUpload,
    SignedMultipartUploadClient, SignedPart, SignedUploadPartRequest, UploadObjectRequest,
    UploadPart, UploadedPart,
};
use openim::errors::OpenImError;

fn file(size: u64) -> FileDigest {
    FileDigest {
        file_name: "avatar.png".to_string(),
        file_size: size,
        content_type: "image/png".to_string(),
        sha256: "sha".to_string(),
    }
}

#[derive(Default)]
struct FakeUploadClient {
    uploaded: Vec<u32>,
}

impl FileUploadClient for FakeUploadClient {
    fn upload_part(&mut self, _file: &FileDigest, part: &UploadPart) -> Result<UploadedPart, OpenImError> {
        self.uploaded.push(part.part_number);
        Ok(UploadedPart {
            part_number: part.part_number,
            etag: format!("etag-{}", part.part_number),
        })
    }
}

struct MismatchedUploadClient;

impl FileUploadClient for MismatchedUploadClient {
    fn upload_part(&mut self, _file: &FileDigest, part: &UploadPart) -> Result<UploadedPart, OpenImError> {
        Ok(UploadedPart {
            part_number: part.part_number + 1,
            etag: "bad".to_string(),
        })
    }
}

fn signed_part(part_number: u32) -> SignedPart {
    let number = part_number.to_string();
    SignedPart {
        part_number,
        url: String::new(),
        query: vec![KeyValues::new("partNumber", &[number.as_str()])],
        header: vec![KeyValues::new("x-part", &[number.as_str()])],
    }
}

struct MockObjectStorageApi {
    initiate_response: InitiateMultipartUploadResponse,
    auth_sign_response: AuthSignParts,
    initiate_requests: Vec<InitiateMultipartUploadRequest>,
    auth_sign_requests: Vec<AuthSignRequest>,
    complete_requests: Vec<CompleteMultipartUploadRequest>,
}

impl Default for MockObjectStorageApi {
    fn default() -> Self {
        Self {
            initiate_response: InitiateMultipartUploadResponse {
                url: String::new(),
                upload: None,
            },
            auth_sign_response: AuthSignParts {
                url: String::new(),
                query: Vec::new(),
                header: Vec::new(),
                parts: Vec::new(),
            },
            initiate_requests: Vec::new(),
            auth_sign_requests: Vec::new(),
            complete_requests: Vec::new(),
        }
    }
}

impl ObjectStorageApi for MockObjectStorageApi {
    fn part_limit(&mut self) -> Result<ObjectPartLimit, OpenImError> {
        Ok(ObjectPartLimit {
            min_part_size: 4,
            max_part_size: 10,
            max_num_size: 3,
        })
    }

    fn initiate_multipart_upload(
        &mut self,
        request: &InitiateMultipartUploadRequest,
    ) -> Result<InitiateMultipartUploadResponse, OpenImError> {
        self.initiate_requests.push(request.clone());
        Ok(self.initiate_response.clone())
    }

    fn auth_sign(&mut self, request: &AuthSignRequest) -> Result<AuthSignParts, OpenImError> {
        self.auth_sign_requests.push(request.clone());
        Ok(self.auth_sign_response.clone())
    }

    fn complete_multipart_upload(
        &mut self,
        request: &CompleteMultipartUploadRequest,
    ) -> Result<CompleteMultipartUploadResponse, OpenImError> {
        self.complete_requests.push(request.clone());
        Ok(CompleteMultipartUploadResponse {
            url: "https://cdn.openim.test/u1/file.bin".to_string(),
        })
    }
}

#[derive(Default)]
struct CapturingHttpUploadClient {
    requests: Vec<SignedUploadPartRequest>,
}

impl HttpUploadClient for CapturingHttpUploadClient {
    fn put_part(&mut self, request: &SignedUploadPartRequest) -> Result<UploadedPart, OpenImError> {
        self.requests.push(request.clone());
        Ok(UploadedPart {
            part_number: request.part_number,
            etag: format!("etag-{}", request.part_number),
        })
    }
}

#[test]
fn multipart_plan_splits_file_by_part_size() {
    let plan = FileTransferService::plan_multipart(file(10), 4).unwrap();

    assert_eq!(
        plan.parts
            .iter()
            .map(|part| (part.part_number, part.offset, part.size))
            .collect::<Vec<_>>(),
        vec![(1, 0, 4), (2, 4, 4), (3, 8, 2)]
    );
}

#[test]
fn resume_and_progress_track_uploaded_parts() {
    let mut plan = FileTransferService::plan_multipart(file(10), 4).unwrap();
    plan = FileTransferService::resume_plan(plan, &[1]);
    FileTransferService::mark_uploaded(&mut plan, 3).unwrap();

    let progress = FileTransferService::progress(&plan);

    assert_eq!(progress.uploaded_parts, 2);
    assert_eq!(progress.uploaded_bytes, 6);
    assert_eq!(progress.total_bytes, 10);
    let percent = progress.uploaded_bytes as f64 * 100.0 / progress.total_bytes as f64;
    assert!((percent - 60.0).abs() < f64::EPSILON);
    assert!(!progress.is_complete());
    assert!(FileTransferService::mark_uploaded(&mut plan, 9).is_err());
}

#[test]
fn upload_missing_parts_skips_resumed_parts_and_updates_progress() {
    let mut plan = FileTransferService::plan_multipart(file(10), 4).unwrap();
    plan = FileTransferService::resume_plan(plan, &[1]);
    let mut client = FakeUploadClient::default();

    let outcome = FileTransferService::upload_missing_parts(&mut plan, &mut client).unwrap();

    assert_eq!(client.uploaded, vec![2, 3]);
    assert_eq!(
        outcome
            .uploaded_parts
            .iter()
            .map(|part| part.part_number)
            .collect::<Vec<_>>(),
        vec![2, 3]
    );
    assert_eq!(outcome.progress.uploaded_bytes, 10);
    assert!(outcome.progress.is_complete());
    assert!(plan.parts.iter().all(|part| part.uploaded));
}

#[test]
fn upload_missing_parts_rejects_part_number_mismatch() {
    let mut plan = FileTransferService::plan_multipart(file(10), 4).unwrap();
    let mut client = MismatchedUploadClient;

    let err = FileTransferService::upload_missing_parts(&mut plan, &mut client).unwrap_err();

    assert!(err.display().contains("uploaded part_number mismatch"));
    assert!(!plan.parts[0].uploaded);
}

#[test]
fn object_part_limit_matches_go_part_size_rules() {
    let limit = ObjectPartLimit {
        min_part_size: 4,
        max_part_size: 10,
        max_num_size: 3,
    };

    assert_eq!(limit.part_size_for(12).unwrap(), 4);
    assert_eq!(limit.part_size_for(13).unwrap(), 5);
    assert!(limit.part_size_for(31).is_err());
    assert!(limit.part_size_for(0).is_err());
}

#[test]
fn upload_object_request_scopes_name_by_login_user() {
    assert_eq!(
        UploadObjectRequest::new("u1", "/avatar.png", "image/png")
            .unwrap()
            .name,
        "u1/avatar.png"
    );
    assert_eq!(
        UploadObjectRequest::new("u1", "u1/avatar.png", "image/png")
            .unwrap()
            .name,
        "u1/avatar.png"
    );
}

#[test]
fn initiate_and_complete_requests_preserve_openim_object_fields() {
    let plan = FileTransferService::plan_multipart(file(10), 4).unwrap();
    let object = UploadObjectRequest::new("u1", "file.bin", "application/octet-stream")
        .unwrap()
        .with_cause("msg-file")
        .with_url_prefix("https://cdn.openim.test");

    let initiate = FileTransferService::initiate_multipart_request(&plan, &object).unwrap();
    let complete = FileTransferService::complete_multipart_request(&plan, &object, "upload-1");

    assert_eq!(initiate.size, 10);
    assert_eq!(initiate.part_size, 4);
    assert_eq!(initiate.max_parts, 3);
    assert_eq!(initiate.name, "u1/file.bin");
    assert_eq!(initiate.cause, "msg-file");
    assert_eq!(initiate.content_type, "application/octet-stream");
    assert_eq!(initiate.url_prefix, "https://cdn.openim.test");
    assert_eq!(initiate.hash, "sha:0:4,sha:4:4,sha:8:2");
    assert_eq!(complete.upload_id, "upload-1");
    assert_eq!(complete.parts, vec!["sha:0:4", "sha:4:4", "sha:8:2"]);
}

#[test]
fn prepare_upload_returns_server_url_when_object_already_exists() {
    let plan = FileTransferService::plan_multipart(file(1), 4).unwrap();
    let object = UploadObjectRequest::new("u1", "avatar.png", "image/png").unwrap();
    let mut api = MockObjectStorageApi {
        initiate_response: InitiateMultipartUploadResponse {
            url: "https://cdn.openim.test/u1/avatar.png".to_string(),
            upload: None,
        },
        ..MockObjectStorageApi::default()
    };

    let prepared = FileTransferService::prepare_multipart_upload(&plan, &object, &mut api).unwrap();

    match prepared {
        PreparedMultipartUpload::AlreadyUploaded { url } => {
            assert_eq!(url, "https://cdn.openim.test/u1/avatar.png");
        }
        PreparedMultipartUpload::Upload(_) => panic!("expected already uploaded"),
    }
    assert_eq!(api.initiate_requests[0].name, "u1/avatar.png");
}

#[test]
fn signed_put_request_merges_base_and_part_credentials() {
    let sign = AuthSignParts {
        url: "https://object.openim.test/upload?existing=1".to_string(),
        query: vec![
            KeyValues::new("token", &["base"]),
            KeyValues::new("shared", &["base"]),
        ],
        header: vec![
            KeyValues::new("Content-Type", &["application/octet-stream"]),
            KeyValues::new("x-openim-meta", &["base"]),
        ],
        parts: vec![SignedPart {
            part_number: 2,
            url: String::new(),
            query: vec![
                KeyValues::new("partNumber", &["2"]),
                KeyValues::new("shared", &["part"]),
            ],
            header: vec![KeyValues::new("x-openim-meta", &["part"])],
        }],
    };

    let request = sign
        .build_put_request(2, 4)
        .expect("part sign")
        .expect("signed request");

    assert_eq!(request.method, "PUT");
    assert_eq!(request.part_number, 2);
    assert_eq!(request.content_length, 4);
    assert!(request.url.contains("existing=1"));
    assert!(request.url.contains("token=base"));
    assert!(request.url.contains("partNumber=2"));
    assert!(request.url.contains("shared=part"));
    assert!(!request.url.contains("shared=base"));
    assert_eq!(
        request.headers,
        vec![
            KeyValues::new("Content-Type", &["application/octet-stream"]),
            KeyValues::new("x-openim-meta", &["part"]),
        ]
    );
    assert!(sign.build_put_request(7, 4).is_none());
}

#[test]
fn signed_upload_client_refreshes_missing_part_signs_and_uploads_put_requests() {
    let mut plan = FileTransferService::plan_multipart(file(10), 4).unwrap();
    let object = UploadObjectRequest::new("u1", "file.bin", "application/octet-stream")
        .unwrap()
        .with_cause("msg-file");
    let mut api = MockObjectStorageApi {
        initiate_response: InitiateMultipartUploadResponse {
            url: String::new(),
            upload: Some(ObjectUploadInfo {
                upload_id: "upload-1".to_string(),
                part_size: 4,
                expire_time: 1000,
                sign: AuthSignParts {
                    url: "https://object.openim.test/upload".to_string(),
                    query: vec![KeyValues::new("uploadID", &["upload-1"])],
                    header: Vec::new(),
                    parts: vec![signed_part(1)],
                },
            }),
        },
        auth_sign_response: AuthSignParts {
            url: "https://object.openim.test/upload".to_string(),
            query: vec![KeyValues::new("uploadID", &["upload-1"])],
            header: Vec::new(),
            parts: vec![signed_part(2), signed_part(3)],
        },
        ..MockObjectStorageApi::default()
    };
    let prepared = FileTransferService::prepare_multipart_upload(&plan, &object, &mut api).unwrap();
    let PreparedMultipartUpload::Upload(session) = prepared else {
        panic!("expected multipart upload session");
    };
    let http = CapturingHttpUploadClient::default();
    let mut client = SignedMultipartUploadClient::new(&mut api, http, session);

    let outcome = FileTransferService::upload_missing_parts(&mut plan, &mut client).unwrap();

    assert!(outcome.progress.is_complete());
    assert_eq!(api.auth_sign_requests.len(), 1);
    assert_eq!(api.auth_sign_requests[0].upload_id, "upload-1");
    assert_eq!(api.auth_sign_requests[0].part_numbers, vec![2, 3]);
    assert!(plan.parts.iter().all(|part| part.uploaded));
}

#[test]
fn uploaded_part_check_compares_numbers() {
    let ok = check_uploaded_part(
        3,
        UploadedPart {
            part_number: 3,
            etag: "e".to_string(),
        },
    )
    .unwrap();
    assert_eq!(ok.etag, "e");
    let err = check_uploaded_part(
        3,
        UploadedPart {
            part_number: 4,
            etag: "e".to_string(),
        },
    )
    .unwrap_err();
    assert!(err.message().contains("uploaded part_number mismatch"));
}

#[test]
fn plan_handles_empty_files_and_rejects_zero_part_size() {
    assert!(FileTransferService::plan_multipart(file(0), 4)
        .unwrap()
        .parts
        .is_empty());
    let mut unnamed = file(10);
    unnamed.file_name = String::new();
    assert_eq!(
        FileTransferService::plan_multipart(unnamed, 4).unwrap_err().message(),
        "file_name is empty"
    );
    assert!(FileTransferService::plan_multipart(file(10), 0).is_err());
    let limit = ObjectPartLimit {
        min_part_size: 4,
        max_part_size: 10,
        max_num_size: 3,
    };
    assert_eq!(
        FileTransferService::part_size_from_limit(&file(12), &limit).unwrap(),
        4
    );
}

#[test]
fn nothing_pending_uploads_nothing_and_completes() {
    let mut plan = FileTransferService::plan_multipart(file(10), 4).unwrap();
    plan = FileTransferService::resume_plan(plan, &[1, 2, 3]);
    let mut client = FakeUploadClient::default();

    let outcome = FileTransferService::upload_missing_parts(&mut plan, &mut client).unwrap();

    assert!(client.uploaded.is_empty());
    assert!(outcome.uploaded_parts.is_empty());
    assert!(outcome.progress.is_complete());

    let mut empty = FileTransferService::plan_multipart(file(0), 4).unwrap();
    let outcome = FileTransferService::upload_missing_parts(&mut empty, &mut client).unwrap();
    assert!(outcome.progress.is_complete());
    assert!(client.uploaded.is_empty());
}

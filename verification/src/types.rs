//! Identifier enums shared with the server protocol, paging and version
//! state.
use vstd::prelude::*;

verus! {

/// Client platform, numbered as the server numbers it.
#[derive(Debug, Clone, Copy, PartialEq, Eq, Structural)]
pub enum Platform {
    Ios,
    Android,
    Windows,
    Macos,
    Web,
    MiniWeb,
    Linux,
    AndroidPad,
    Ipad,
    Admin,
    HarmonyOs,
}

impl Platform {
    /// Each platform has its own id: two with the same id are the same, so
    /// reading back the id of a value gives that value.
    pub proof fn law_ids_distinct(a: Platform, b: Platform)
        ensures
            a.spec_id() == b.spec_id() ==> a == b,
    {
    }

    /// The protocol number of each platform.
    pub open spec fn spec_id(self) -> i32 {
        match self {
            Platform::Ios => 1,
            Platform::Android => 2,
            Platform::Windows => 3,
            Platform::Macos => 4,
            Platform::Web => 5,
            Platform::MiniWeb => 6,
            Platform::Linux => 7,
            Platform::AndroidPad => 8,
            Platform::Ipad => 9,
            Platform::Admin => 10,
            Platform::HarmonyOs => 11,
        }
    }

    pub fn as_i32(self) -> (r: i32)
        ensures
            r == self.spec_id(),
    {
        match self {
            Platform::Ios => 1,
            Platform::Android => 2,
            Platform::Windows => 3,
            Platform::Macos => 4,
            Platform::Web => 5,
            Platform::MiniWeb => 6,
            Platform::Linux => 7,
            Platform::AndroidPad => 8,
            Platform::Ipad => 9,
            Platform::Admin => 10,
            Platform::HarmonyOs => 11,
        }
    }

    /// The platform with the given number, if there is one.
    pub fn from_i32(value: i32) -> (r: Option<Platform>)
        ensures
            r matches Some(p) ==> p.spec_id() == value,
            r is None <==> !(1 <= value <= 11),
    {
        if value == 1 {
            Some(Platform::Ios)
        } else if value == 2 {
            Some(Platform::Android)
        } else if value == 3 {
            Some(Platform::Windows)
        } else if value == 4 {
            Some(Platform::Macos)
        } else if value == 5 {
            Some(Platform::Web)
        } else if value == 6 {
            Some(Platform::MiniWeb)
        } else if value == 7 {
            Some(Platform::Linux)
        } else if value == 8 {
            Some(Platform::AndroidPad)
        } else if value == 9 {
            Some(Platform::Ipad)
        } else if value == 10 {
            Some(Platform::Admin)
        } else if value == 11 {
            Some(Platform::HarmonyOs)
        } else {
            None
        }
    }
}

/// Kind of conversation a message travels in.
#[derive(Debug, Clone, Copy, PartialEq, Eq, Structural)]
pub enum SessionType {
    Single,
    WriteGroup,
    ReadGroup,
    Notification,
}

impl SessionType {
    /// Each session type has its own id: two with the same id are the same, so
    /// reading back the id of a value gives that value.
    pub proof fn law_ids_distinct(a: SessionType, b: SessionType)
        ensures
            a.spec_id() == b.spec_id() ==> a == b,
    {
    }

    pub open spec fn spec_id(self) -> i32 {
        match self {
            SessionType::Single => 1,
            SessionType::WriteGroup => 2,
            SessionType::ReadGroup => 3,
            SessionType::Notification => 4,
        }
    }

    /// Whether the conversation is with one peer (single chat or notification).
    pub open spec fn is_peer(self) -> bool {
        self is Single || self is Notification
    }

    pub fn as_i32(self) -> (r: i32)
        ensures
            r == self.spec_id(),
    {
        match self {
            SessionType::Single => 1,
            SessionType::WriteGroup => 2,
            SessionType::ReadGroup => 3,
            SessionType::Notification => 4,
        }
    }

    pub fn from_i32(value: i32) -> (r: Option<SessionType>)
        ensures
            r matches Some(p) ==> p.spec_id() == value,
            r is None <==> !(1 <= value <= 4),
    {
        if value == 1 {
            Some(SessionType::Single)
        } else if value == 2 {
            Some(SessionType::WriteGroup)
        } else if value == 3 {
            Some(SessionType::ReadGroup)
        } else if value == 4 {
            Some(SessionType::Notification)
        } else {
            None
        }
    }
}

/// Kind of message content.
#[derive(Debug, Clone, Copy, PartialEq, Eq, Structural)]
pub enum MessageContentType {
    Text,
    Picture,
    Sound,
    Video,
    File,
    AtText,
    Merger,
    Card,
    Location,
    Custom,
    Typing,
    Quote,
    Face,
    AdvancedText,
    MarkdownText,
}

impl MessageContentType {
    /// Each content type has its own id: two with the same id are the same, so
    /// reading back the id of a value gives that value.
    pub proof fn law_ids_distinct(a: MessageContentType, b: MessageContentType)
        ensures
            a.spec_id() == b.spec_id() ==> a == b,
    {
    }

    pub open spec fn spec_id(self) -> i32 {
        match self {
            MessageContentType::Text => 101,
            MessageContentType::Picture => 102,
            MessageContentType::Sound => 103,
            MessageContentType::Video => 104,
            MessageContentType::File => 105,
            MessageContentType::AtText => 106,
            MessageContentType::Merger => 107,
            MessageContentType::Card => 108,
            MessageContentType::Location => 109,
            MessageContentType::Custom => 110,
            MessageContentType::Typing => 113,
            MessageContentType::Quote => 114,
            MessageContentType::Face => 115,
            MessageContentType::AdvancedText => 117,
            MessageContentType::MarkdownText => 118,
        }
    }

    pub fn as_i32(self) -> (r: i32)
        ensures
            r == self.spec_id(),
    {
        match self {
            MessageContentType::Text => 101,
            MessageContentType::Picture => 102,
            MessageContentType::Sound => 103,
            MessageContentType::Video => 104,
            MessageContentType::File => 105,
            MessageContentType::AtText => 106,
            MessageContentType::Merger => 107,
            MessageContentType::Card => 108,
            MessageContentType::Location => 109,
            MessageContentType::Custom => 110,
            MessageContentType::Typing => 113,
            MessageContentType::Quote => 114,
            MessageContentType::Face => 115,
            MessageContentType::AdvancedText => 117,
            MessageContentType::MarkdownText => 118,
        }
    }

    pub fn from_i32(value: i32) -> (r: Option<MessageContentType>)
        ensures
            r matches Some(p) ==> p.spec_id() == value,
            r is None <==> !((101 <= value <= 110) || value == 113 || value == 114 || value == 115
                || value == 117 || value == 118),
    {
        if value == 101 {
            Some(MessageContentType::Text)
        } else if value == 102 {
            Some(MessageContentType::Picture)
        } else if value == 103 {
            Some(MessageContentType::Sound)
        } else if value == 104 {
            Some(MessageContentType::Video)
        } else if value == 105 {
            Some(MessageContentType::File)
        } else if value == 106 {
            Some(MessageContentType::AtText)
        } else if value == 107 {
            Some(MessageContentType::Merger)
        } else if value == 108 {
            Some(MessageContentType::Card)
        } else if value == 109 {
            Some(MessageContentType::Location)
        } else if value == 110 {
            Some(MessageContentType::Custom)
        } else if value == 113 {
            Some(MessageContentType::Typing)
        } else if value == 114 {
            Some(MessageContentType::Quote)
        } else if value == 115 {
            Some(MessageContentType::Face)
        } else if value == 117 {
            Some(MessageContentType::AdvancedText)
        } else if value == 118 {
            Some(MessageContentType::MarkdownText)
        } else {
            None
        }
    }
}

/// Delivery state of a message.
#[derive(Debug, Clone, Copy, PartialEq, Eq, Structural)]
pub enum MessageStatus {
    Sending,
    SendSuccess,
    SendFailed,
    HasDeleted,
    Filtered,
}

impl MessageStatus {
    /// Each message status has its own id: two with the same id are the same, so
    /// reading back the id of a value gives that value.
    pub proof fn law_ids_distinct(a: MessageStatus, b: MessageStatus)
        ensures
            a.spec_id() == b.spec_id() ==> a == b,
    {
    }

    pub open spec fn spec_id(self) -> i32 {
        match self {
            MessageStatus::Sending => 1,
            MessageStatus::SendSuccess => 2,
            MessageStatus::SendFailed => 3,
            MessageStatus::HasDeleted => 4,
            MessageStatus::Filtered => 5,
        }
    }

    pub fn as_i32(self) -> (r: i32)
        ensures
            r == self.spec_id(),
    {
        match self {
            MessageStatus::Sending => 1,
            MessageStatus::SendSuccess => 2,
            MessageStatus::SendFailed => 3,
            MessageStatus::HasDeleted => 4,
            MessageStatus::Filtered => 5,
        }
    }

    pub fn from_i32(value: i32) -> (r: Option<MessageStatus>)
        ensures
            r matches Some(p) ==> p.spec_id() == value,
            r is None <==> !(1 <= value <= 5),
    {
        if value == 1 {
            Some(MessageStatus::Sending)
        } else if value == 2 {
            Some(MessageStatus::SendSuccess)
        } else if value == 3 {
            Some(MessageStatus::SendFailed)
        } else if value == 4 {
            Some(MessageStatus::HasDeleted)
        } else if value == 5 {
            Some(MessageStatus::Filtered)
        } else {
            None
        }
    }
}

/// A page request: zero-based page number and page size.
#[derive(Debug, Clone, Copy, PartialEq, Eq, Structural)]
pub struct Pagination {
    pub page_number: i32,
    pub show_number: i32,
}

/// The page size used when none (or a non-positive one) is given.
pub const DEFAULT_SHOW_NUMBER: i32 = 200;

impl Pagination {
    /// Negative page numbers become 0, non-positive page sizes become 200.
    pub open spec fn spec_normalized(self) -> Pagination {
        Pagination {
            page_number: if self.page_number < 0 {
                0
            } else {
                self.page_number
            },
            show_number: if self.show_number <= 0 {
                200
            } else {
                self.show_number
            },
        }
    }

    pub fn normalized(self) -> (r: Pagination)
        ensures
            r == self.spec_normalized(),
    {
        let mut p = self;
        if p.page_number < 0 {
            p.page_number = 0;
        }
        if p.show_number <= 0 {
            p.show_number = DEFAULT_SHOW_NUMBER;
        }
        p
    }
}

impl Default for Pagination {
    fn default() -> (r: Pagination)
        ensures
            r == (Pagination { page_number: 0, show_number: 200 }),
    {
        Pagination { page_number: 0, show_number: DEFAULT_SHOW_NUMBER }
    }
}

/// The page of `items` that `pagination` (normalized) selects: skip
/// `page * size` items (saturating at the platform word size), then take
/// at most `size`.
pub open spec fn spec_page<T>(items: Seq<T>, pagination: Pagination) -> Seq<T> {
    let p = pagination.spec_normalized();
    let raw_start = p.page_number as int * p.show_number as int;
    let start = if raw_start > usize::MAX {
        usize::MAX as int
    } else {
        raw_start
    };
    let end = if start + p.show_number as int > items.len() {
        items.len() as int
    } else {
        start + p.show_number as int
    };
    if start >= items.len() {
        Seq::empty()
    } else {
        items.subrange(start, end)
    }
}

/// Takes one page out of `items`.
pub fn paginate<T>(items: Vec<T>, pagination: Pagination) -> (r: Vec<T>)
    ensures
        r@ == spec_page(items@, pagination),
{
    let p = pagination.normalized();
    let page = p.page_number as usize;
    let size = p.show_number as usize;
    let start = match page.checked_mul(size) {
        Some(v) => v,
        None => usize::MAX,
    };
    let mut out: Vec<T> = Vec::new();
    let mut items = items;
    if start >= items.len() {
        return out;
    }
    let end = if size > items.len() - start {
        items.len()
    } else {
        start + size
    };
    let ghost orig = items@;
    // Drop everything from `end` on, then move the kept items out in order.
    items.truncate(end);
    let mut rest = items.split_off(start);
    assert(rest@ =~= orig.subrange(start as int, end as int));
    out.append(&mut rest);
    assert(out@ =~= orig.subrange(start as int, end as int));
    out
}

/// Version bookkeeping of an incrementally synced list.
#[derive(Debug, Clone, PartialEq, Eq)]
pub struct VersionState {
    pub version_id: String,
    pub version: u64,
    pub uid_list: Vec<String>,
}

impl VersionState {
    pub fn empty() -> (r: VersionState)
        ensures
            r.version_id@ == Seq::<char>::empty(),
            r.version == 0,
            r.uid_list@ == Seq::<String>::empty(),
    {
        VersionState { version_id: String::new(), version: 0, uid_list: Vec::new() }
    }
}

} // verus!

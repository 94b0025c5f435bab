use vstd::prelude::*;

verus! {

/// Name the service reports for itself.
pub const APP_NAME: &'static str = "linkwise";

/// Version the service reports for itself.
pub const APP_VERSION: &'static str = "0.1.0";

/// Body of the health endpoint.
pub struct HealthResponse {
    pub status: &'static str,
    pub app: &'static str,
    pub version: &'static str,
}

impl HealthResponse {
    /// The healthy answer.
    pub fn success() -> (r: Self)
        ensures
            r.status@ == "success"@,
            r.app@ == APP_NAME@,
            r.version@ == APP_VERSION@,
    {
        HealthResponse { status: "success", app: APP_NAME, version: APP_VERSION }
    }
}

/// A stored bookmark.
#[derive(Debug, Clone)]
pub struct Bookmark {
    pub id: String,
    pub title: String,
    pub url: String,
    pub folder: String,
    pub sort_order: i64,
}

/// All bookmarks and folder orders at once.
pub struct BootstrapResponse {
    pub bookmarks: Vec<Bookmark>,
    pub folder_orders: Vec<FolderOrder>,
}

/// A bookmark as a client submits it; every field may be missing.
#[derive(Debug, Clone)]
pub struct BookmarkPayload {
    pub id: Option<String>,
    pub title: Option<String>,
    pub url: Option<String>,
    pub folder: Option<String>,
}

/// Several bookmarks submitted for import.
pub struct BulkBookmarksPayload {
    pub bookmarks: Vec<BookmarkPayload>,
}

/// A single integer read back from a query.
pub struct CountValue {
    pub value: i64,
}

/// A registered administrator passkey.
#[derive(Debug, Clone)]
pub struct AdminCredential {
    pub credential_id: String,
    pub public_key: String,
    pub sign_count: i64,
    pub name: String,
    pub created_at: i64,
    pub last_used_at: Option<i64>,
}

/// A stored WebAuthn challenge.
#[derive(Debug, Clone)]
pub struct AuthChallenge {
    pub id: String,
    pub challenge: String,
    pub purpose: String,
    pub created_at: i64,
    pub expires_at: i64,
    pub used_at: Option<i64>,
}

/// A stored administrator web session.
#[derive(Debug, Clone)]
pub struct AdminSession {
    pub id: String,
    pub token_hash: String,
    pub credential_id: Option<String>,
    pub created_at: i64,
    pub last_seen_at: i64,
    pub expires_at: i64,
    pub revoked_at: Option<i64>,
}

/// A stored app device session.
#[derive(Debug, Clone)]
pub struct AppDeviceSession {
    pub id: String,
    pub token_hash: String,
    pub token_prefix: String,
    pub name: String,
    pub issued_by_credential_id: Option<String>,
    pub created_at: i64,
    pub last_seen_at: Option<i64>,
    pub revoked_at: Option<i64>,
}

/// Answer to a saved bookmark.
pub struct BookmarkSaveResponse {
    pub status: &'static str,
    pub id: String,
    pub title: String,
    pub url: String,
    pub folder: String,
    pub total_count: i64,
}

/// Answer to a bulk import.
pub struct BulkBookmarksResponse {
    pub status: &'static str,
    pub imported_count: usize,
    pub imported_ids: Vec<String>,
    pub duplicate_count: usize,
    pub skipped_count: usize,
    pub total_count: i64,
}

/// A list of bookmark IDs.
pub struct IdsPayload {
    pub ids: Vec<String>,
}

/// Bookmarks to move into a folder.
pub struct MoveBookmarksPayload {
    pub ids: Vec<String>,
    pub folder: Option<String>,
}

/// A requested order of the bookmarks of a folder.
pub struct ReorderBookmarksPayload {
    pub folder: Option<String>,
    pub ids: Vec<String>,
}

/// A requested order of the subfolders of a folder.
pub struct ReorderFoldersPayload {
    pub parent_folder: Option<String>,
    pub folders: Vec<String>,
}

/// A folder to act on.
pub struct FolderPayload {
    pub folder: Option<String>,
}

/// A folder and its new path.
pub struct RenameFolderPayload {
    pub folder: Option<String>,
    pub new_folder: Option<String>,
}

/// Answer to a move of bookmarks.
pub struct MoveBookmarksResponse {
    pub status: &'static str,
    pub moved_count: usize,
    pub folder: String,
}

/// Answer to a reorder of bookmarks.
pub struct ReorderBookmarksResponse {
    pub status: &'static str,
    pub folder: String,
    pub updated_count: usize,
}

/// Answer to a delete of bookmarks.
pub struct DeleteBookmarksResponse {
    pub status: &'static str,
    pub deleted_count: usize,
}

/// Answer to a reorder of folders.
pub struct ReorderFoldersResponse {
    pub status: &'static str,
    pub parent_folder: String,
    pub updated_count: usize,
}

/// Answer to dissolving a folder into its parent.
pub struct MoveFolderUpResponse {
    pub status: &'static str,
    pub message: &'static str,
    pub moved_count: usize,
    pub parent_folder: String,
}

/// Answer to a folder rename.
pub struct RenameFolderResponse {
    pub status: &'static str,
    pub message: &'static str,
    pub renamed_count: usize,
    pub folder: String,
    pub new_folder: String,
}

/// Answer to a folder delete.
pub struct DeleteFolderResponse {
    pub status: &'static str,
    pub message: &'static str,
    pub deleted_count: usize,
}

/// WebDAV settings as a client submits them.
pub struct WebdavConfigPayload {
    pub webdav_url: Option<String>,
    pub username: Option<String>,
    pub password: Option<String>,
    pub remote_dir: Option<String>,
    pub filename: Option<String>,
}

/// WebDAV settings as they are shown (never the password itself).
pub struct WebdavConfig {
    pub webdav_url: String,
    pub username: String,
    pub remote_dir: String,
    pub filename: String,
    pub has_password: bool,
    pub password_security: &'static str,
}

/// Answer carrying the WebDAV settings.
pub struct WebdavConfigResponse {
    pub status: &'static str,
    pub config: WebdavConfig,
}

/// Answer to a bookmark whose URL is already stored.
pub struct DuplicateBookmarkResponse {
    pub status: &'static str,
    pub error: &'static str,
    pub message: &'static str,
    pub bookmark: Bookmark,
}

/// The position of a folder among the subfolders of its parent.
#[derive(Debug, Clone)]
pub struct FolderOrder {
    pub parent_folder: String,
    pub folder_name: String,
    pub sort_order: i64,
}

/// Body of an error answer.
pub struct ErrorResponse {
    pub status: &'static str,
    pub error: Option<&'static str>,
    pub message: String,
}

impl ErrorResponse {
    /// An error answer without a code.
    pub fn new(message: String) -> (r: Self)
        ensures
            r.status@ == "error"@,
            r.error is None,
            r.message@ == message@,
    {
        ErrorResponse { status: "error", error: None, message }
    }

    /// An error answer with a code.
    pub fn with_code(error: &'static str, message: String) -> (r: Self)
        ensures
            r.status@ == "error"@,
            r.error == Some(error),
            r.message@ == message@,
    {
        ErrorResponse { status: "error", error: Some(error), message }
    }
}

impl DuplicateBookmarkResponse {
    /// The answer to a save whose URL another bookmark already has (sent with status
    /// 409): that bookmark, with the error `duplicate_url`.
    pub fn for_bookmark(bookmark: Bookmark) -> (r: Self)
        ensures
            r.status@ == "error"@,
            r.error@ == "duplicate_url"@,
            r.message@ == "这个 URL 已存在"@,
            r.bookmark == bookmark,
    {
        DuplicateBookmarkResponse { status: "error", error: "duplicate_url", message: "这个 URL 已存在", bookmark }
    }
}

impl MoveFolderUpResponse {
    /// The answer to dissolving a folder into its parent.
    pub fn success(moved_count: usize, parent_folder: String) -> (r: Self)
        ensures
            r.status@ == "success"@,
            r.message@ == "目录已删除，书签已移动到上一层"@,
            r.moved_count == moved_count,
            r.parent_folder == parent_folder,
    {
        MoveFolderUpResponse { status: "success", message: "目录已删除，书签已移动到上一层", moved_count, parent_folder }
    }
}

impl RenameFolderResponse {
    /// The answer to renaming a folder.
    pub fn success(renamed_count: usize, folder: String, new_folder: String) -> (r: Self)
        ensures
            r.status@ == "success"@,
            r.message@ == "目录已更新"@,
            r.renamed_count == renamed_count,
            r.folder == folder,
            r.new_folder == new_folder,
    {
        RenameFolderResponse { status: "success", message: "目录已更新", renamed_count, folder, new_folder }
    }
}

impl DeleteFolderResponse {
    /// The answer to deleting a folder with its bookmarks.
    pub fn success(deleted_count: usize) -> (r: Self)
        ensures
            r.status@ == "success"@,
            r.message@ == "目录和目录下书签已删除"@,
            r.deleted_count == deleted_count,
    {
        DeleteFolderResponse { status: "success", message: "目录和目录下书签已删除", deleted_count }
    }
}

} // verus!

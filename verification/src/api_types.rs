//! Request and response types of the engine's operations.

use crate::item::{clone_string, PublicItemMetadata};
use crate::principal::PrincipalId;
use crate::users::PublicUser;
use crate::ItemId;
use vstd::prelude::*;

verus! {

/// The failures of the tree operations.
#[derive(Debug, Clone, Copy, PartialEq, Eq, Structural)]
pub enum ItemError {
    /// The named item, alias, template or group does not exist.
    NotFound,
    /// The caller does not own the item it tries to change.
    PermissionDenied,
    /// The operation needs a folder but was given a file.
    NotAFolder,
    /// The operation needs a file but was given a folder.
    NotAFile,
    /// The folder still has children and cannot be deleted.
    FolderNotEmpty,
    /// The move would make an item its own ancestor.
    CycleDetected,
    /// The file's upload has not finished, so it cannot be shared.
    PendingOrPartialUpload,
    /// The chunk index lies outside the declared chunk count, or no count
    /// was declared yet.
    InvalidChunk,
    /// The new name is empty or whitespace only.
    InvalidName,
}

impl ItemError {
    /// The human-readable message of the error.
    pub fn message(&self) -> (r: String)
        ensures
            r@ == self.spec_message(),
    {
        match self {
            ItemError::NotFound => String::from_str("Item not found."),
            ItemError::PermissionDenied => String::from_str(
                "Permission denied: You do not own this item.",
            ),
            ItemError::NotAFolder => String::from_str("Parent item is not a folder."),
            ItemError::NotAFile => String::from_str("Item is not a file."),
            ItemError::FolderNotEmpty => String::from_str("Folder is not empty. Cannot delete."),
            ItemError::CycleDetected => String::from_str(
                "Cannot move a folder into one of its subfolders (cycle detected).",
            ),
            ItemError::PendingOrPartialUpload => String::from_str(
                "Item is not in a shareable state (e.g. pending upload).",
            ),
            ItemError::InvalidChunk => String::from_str(
                "Invalid chunk index for this item.",
            ),
            ItemError::InvalidName => String::from_str("New name cannot be empty."),
        }
    }

    /// The characters of the error's message.
    pub open spec fn spec_message(&self) -> Seq<char> {
        match self {
            ItemError::NotFound => "Item not found."@,
            ItemError::PermissionDenied => "Permission denied: You do not own this item."@,
            ItemError::NotAFolder => "Parent item is not a folder."@,
            ItemError::NotAFile => "Item is not a file."@,
            ItemError::FolderNotEmpty => "Folder is not empty. Cannot delete."@,
            ItemError::CycleDetected => "Cannot move a folder into one of its subfolders (cycle detected)."@,
            ItemError::PendingOrPartialUpload => "Item is not in a shareable state (e.g. pending upload)."@,
            ItemError::InvalidChunk => "Invalid chunk index for this item."@,
            ItemError::InvalidName => "New name cannot be empty."@,
        }
    }
}

/// The failures of the alias-based upload.
#[derive(Debug, Clone, Copy, PartialEq, Eq, Structural)]
pub enum UploadFileError {
    /// No pending file item with this id exists.
    NotRequested,
    /// The item already received its first chunk.
    AlreadyUploaded,
}

/// The outcome of a share or revoke call.
#[derive(Debug, Clone, Copy, PartialEq, Eq, Structural)]
pub enum FileSharingResponse {
    /// The file's upload is pending or partial.
    PendingError,
    /// The caller does not own the item, or the share does not exist.
    PermissionError,
    /// The share was recorded or revoked.
    Done,
}

/// The failure of an alias or template lookup.
#[derive(Debug, Clone, Copy, PartialEq, Eq, Structural)]
pub enum GetAliasInfoError {
    NotFound,
}

/// The input of the one-call upload.
#[derive(Debug)]
pub struct UploadFileAtomicDirectRequest {
    pub name: String,
    pub content: Vec<u8>,
    pub file_type: String,
    pub num_chunks: u64,
    pub parent_id: Option<ItemId>,
}

/// The input of an upload into an already requested item.
#[derive(Debug)]
pub struct UploadContentToItemRequest {
    pub item_id: ItemId,
    pub file_content: Vec<u8>,
    pub file_type: String,
    pub num_chunks: u64,
}

/// The input of a continuation upload.
#[derive(Debug)]
pub struct UploadChunkContinueRequest {
    pub item_id: ItemId,
    pub chunk_id: u64,
    pub contents: Vec<u8>,
}

/// The input of a grouped request.
#[derive(Debug)]
pub struct MultiRequestInputLegacy {
    pub group_name: String,
    pub file_names: Vec<String>,
    pub save_as_template: bool,
}

/// One delivered chunk of a download.
#[derive(Debug)]
pub struct FoundFileChunk {
    pub contents: Vec<u8>,
    pub file_type: String,
    pub num_chunks: u64,
}

impl PartialEq for FoundFileChunk {
    fn eq(&self, other: &FoundFileChunk) -> (r: bool) {
        crate::principal::byte_vecs_eq(&self.contents, &other.contents) && self.file_type
            == other.file_type && self.num_chunks == other.num_chunks
    }
}

impl vstd::std_specs::cmp::PartialEqSpecImpl for FoundFileChunk {
    open spec fn obeys_eq_spec() -> bool {
        true
    }

    open spec fn eq_spec(&self, other: &FoundFileChunk) -> bool {
        self.contents@ == other.contents@ && self.file_type@ == other.file_type@
            && self.num_chunks == other.num_chunks
    }
}

/// The outcome of a chunk download.
#[derive(Debug)]
pub enum DownloadChunkResponse {
    NotFoundItem,
    NotAFile,
    NotUploadedFile,
    ChunkNotFound,
    PermissionError,
    FoundFileChunk(FoundFileChunk),
}

impl PartialEq for DownloadChunkResponse {
    fn eq(&self, other: &DownloadChunkResponse) -> (r: bool) {
        match (self, other) {
            (DownloadChunkResponse::NotFoundItem, DownloadChunkResponse::NotFoundItem) => true,
            (DownloadChunkResponse::NotAFile, DownloadChunkResponse::NotAFile) => true,
            (
                DownloadChunkResponse::NotUploadedFile,
                DownloadChunkResponse::NotUploadedFile,
            ) => true,
            (DownloadChunkResponse::ChunkNotFound, DownloadChunkResponse::ChunkNotFound) => true,
            (
                DownloadChunkResponse::PermissionError,
                DownloadChunkResponse::PermissionError,
            ) => true,
            (
                DownloadChunkResponse::FoundFileChunk(a),
                DownloadChunkResponse::FoundFileChunk(b),
            ) => a == b,
            _ => false,
        }
    }
}

impl vstd::std_specs::cmp::PartialEqSpecImpl for DownloadChunkResponse {
    open spec fn obeys_eq_spec() -> bool {
        true
    }

    open spec fn eq_spec(&self, other: &DownloadChunkResponse) -> bool {
        match (self, other) {
            (DownloadChunkResponse::NotFoundItem, DownloadChunkResponse::NotFoundItem) => true,
            (DownloadChunkResponse::NotAFile, DownloadChunkResponse::NotAFile) => true,
            (
                DownloadChunkResponse::NotUploadedFile,
                DownloadChunkResponse::NotUploadedFile,
            ) => true,
            (DownloadChunkResponse::ChunkNotFound, DownloadChunkResponse::ChunkNotFound) => true,
            (
                DownloadChunkResponse::PermissionError,
                DownloadChunkResponse::PermissionError,
            ) => true,
            (
                DownloadChunkResponse::FoundFileChunk(a),
                DownloadChunkResponse::FoundFileChunk(b),
            ) => a.contents@ == b.contents@ && a.file_type@ == b.file_type@ && a.num_chunks
                == b.num_chunks,
            _ => false,
        }
    }
}

/// The outcome of a tree mutation, as shown on the wire.
#[derive(Debug)]
pub enum ItemOperationResponse {
    Done,
    Failed(String),
}

/// The detailed outcome of an upload call, as shown on the wire.
#[derive(Debug)]
pub enum DetailedUploadResponse {
    Done(Option<()>),
    PermissionError(Option<()>),
    ItemNotFound(Option<()>),
    FolderNotEmpty(Option<()>),
    NotAFile(Option<()>),
    NotAFolder(Option<()>),
    PendingError(Option<()>),
    AlreadyUploaded(Option<()>),
    NotRequested(Option<()>),
    InvalidChunk(Option<()>),
}

/// What an alias resolves to: the pending item and its requester.
#[derive(Debug)]
pub struct AliasInfoForUpload {
    pub item_id: ItemId,
    pub file_name: String,
    pub user: PublicUser,
}

/// The ids handed back by a grouped request.
#[derive(Debug)]
pub struct MultiRequestResponseLegacy {
    pub group_id: ItemId,
    pub group_alias: String,
}

/// A request group as shown to its requester.
#[derive(Debug)]
pub struct PublicRequestGroupLegacy {
    pub group_id: ItemId,
    pub name: String,
    pub files: Vec<PublicItemMetadata>,
    pub created_at: u64,
}

/// One pending file of a group, with its upload alias.
#[derive(Debug)]
pub struct FileInfoForUpload {
    pub item_id: ItemId,
    pub file_name: String,
    pub alias: String,
}

/// What a group alias resolves to.
#[derive(Debug)]
pub struct GroupInfoForUploadResponse {
    pub group_id: ItemId,
    pub group_name: String,
    pub files: Vec<FileInfoForUpload>,
    pub requester: PublicUser,
}

/// The failure of a template lookup, as shown on the wire.
#[derive(Debug, Clone, Copy, PartialEq, Eq, Structural)]
pub enum TemplateResponseLegacyError {
    NotFound,
}

/// The outcome of a template lookup, as shown on the wire.
#[derive(Debug)]
pub enum TemplateResponseLegacy {
    Found(crate::templates::TemplateLegacy),
    Missing(TemplateResponseLegacyError),
}

/// The outcome of registering a user.
#[derive(Debug, Clone, Copy, PartialEq, Eq, Structural)]
pub enum SetUserResponse {
    Done,
    UsernameExists,
}

/// Who the caller is, if registered.
#[derive(Debug)]
pub enum WhoamiResponse {
    KnownUser(PublicUser),
    UnknownUser,
}

/// The derived upload status of a file item.
#[derive(Debug)]
pub enum FileStatus {
    Pending { alias: String, requested_at: u64 },
    PartiallyUploaded,
    Uploaded { uploaded_at: u64 },
}

/// Clones a caller identity into a public profile.
pub fn make_public_user(username: &String, public_key: &Vec<u8>, p: &PrincipalId) -> (r: PublicUser)
    ensures
        r.username@ == username@,
        r.public_key@ == public_key@,
        r.ic_principal@ == p@,
{
    PublicUser {
        username: clone_string(username),
        public_key: crate::principal::clone_byte_vec(public_key),
        ic_principal: p.clone(),
    }
}

} // verus!

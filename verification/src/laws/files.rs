//! What the commands for received files and for found files answer.

use crate::commands::fileclean::{
    after_entry, batch_of, batch_reply, batch_type, covers, delete_refusal, dir_to_scan,
    file_detail, file_entry, file_item, file_refusal, files_refusal, holds_messages, image_refusal,
    item_keys, item_size, key_of, kind_of_ext, mime_of, owner_of, path_named, root_refusal,
    scan_reply, setting_of, slot_of, total_size, BatchV, FoundV, Kind, Place, Removed, ScopeV,
    Scopes, WalkV,
};
use crate::commands::finder::{
    all_found, as_text, asked_paths, delete_reply, deleted_entries, deleted_entry, found_under,
    guarded, guarded_at, in_older_half, kind_named, numbers_for, results_in, snap_of, start_dirs,
    start_refusal, stored, targets_of, totals, unchanged, went_well, with_items, younger, ScanKind,
    SnapV, Standing,
};
use crate::json::{array_member, member, text_member, JsonV};
use crate::laws::count::{added, count};
use crate::laws::object::lemma_member_at;
use crate::protect::{normal_path, protected_norm, Roots};
use crate::rulepath::Env;
use crate::text::{dec, replaced, trimmed};
use crate::value::{bool_member, size_of_value};
use vstd::prelude::*;

verus! {

proof fn lemma_batch_keys()
    ensures
        "totalFreed"@ != "success"@,
        "totalFreed"@ != "failed"@,
        "totalFreed"@ != "recycled"@,
        "totalFreed"@ != "details"@,
        "totalFreed"@ != "skipped"@,
        "totalFreed"@ != "manifestPath"@,
        "totalFreed"@ != "data"@,
        "totalFreed"@ != "size"@,
        "success"@ != "failed"@,
        "success"@ != "recycled"@,
        "success"@ != "details"@,
        "success"@ != "skipped"@,
        "success"@ != "manifestPath"@,
        "success"@ != "data"@,
        "success"@ != "size"@,
        "failed"@ != "recycled"@,
        "failed"@ != "details"@,
        "failed"@ != "skipped"@,
        "failed"@ != "manifestPath"@,
        "failed"@ != "data"@,
        "failed"@ != "size"@,
        "recycled"@ != "details"@,
        "recycled"@ != "skipped"@,
        "recycled"@ != "manifestPath"@,
        "recycled"@ != "data"@,
        "recycled"@ != "size"@,
        "details"@ != "skipped"@,
        "details"@ != "manifestPath"@,
        "details"@ != "data"@,
        "details"@ != "size"@,
        "skipped"@ != "manifestPath"@,
        "skipped"@ != "data"@,
        "skipped"@ != "size"@,
        "manifestPath"@ != "data"@,
        "manifestPath"@ != "size"@,
        "data"@ != "size"@,
{
    reveal_strlit("totalFreed");
    reveal_strlit("success");
    reveal_strlit("failed");
    reveal_strlit("recycled");
    reveal_strlit("details");
    reveal_strlit("skipped");
    reveal_strlit("manifestPath");
    reveal_strlit("data");
    reveal_strlit("size");
    assert("totalFreed"@.len() == 10);
    assert("success"@.len() == 7);
    assert("failed"@.len() == 6);
    assert("recycled"@.len() == 8);
    assert("details"@.len() == 7);
    assert("skipped"@.len() == 7);
    assert("manifestPath"@.len() == 12);
    assert("data"@.len() == 4);
    assert("size"@.len() == 4);
    assert("success"@[0] != "details"@[0]);
    assert("success"@[1] != "skipped"@[1]);
    assert("details"@[0] != "skipped"@[0]);
    assert("data"@[0] != "size"@[0]);
}

proof fn lemma_file_keys()
    ensures
        "path"@ != "name"@,
        "path"@ != "size"@,
        "path"@ != "mtime"@,
        "path"@ != "ext"@,
        "path"@ != "category"@,
        "path"@ != "status"@,
        "path"@ != "freed"@,
        "path"@ != "message"@,
        "path"@ != "kind"@,
        "path"@ != "recycled"@,
        "path"@ != "files"@,
        "path"@ != "totalSize"@,
        "path"@ != "scanPath"@,
        "path"@ != "unhandled"@,
        "name"@ != "size"@,
        "name"@ != "mtime"@,
        "name"@ != "ext"@,
        "name"@ != "category"@,
        "name"@ != "status"@,
        "name"@ != "freed"@,
        "name"@ != "message"@,
        "name"@ != "kind"@,
        "name"@ != "recycled"@,
        "name"@ != "files"@,
        "name"@ != "totalSize"@,
        "name"@ != "scanPath"@,
        "name"@ != "unhandled"@,
        "size"@ != "mtime"@,
        "size"@ != "ext"@,
        "size"@ != "category"@,
        "size"@ != "status"@,
        "size"@ != "freed"@,
        "size"@ != "message"@,
        "size"@ != "kind"@,
        "size"@ != "recycled"@,
        "size"@ != "files"@,
        "size"@ != "totalSize"@,
        "size"@ != "scanPath"@,
        "size"@ != "unhandled"@,
        "mtime"@ != "ext"@,
        "mtime"@ != "category"@,
        "mtime"@ != "status"@,
        "mtime"@ != "freed"@,
        "mtime"@ != "message"@,
        "mtime"@ != "kind"@,
        "mtime"@ != "recycled"@,
        "mtime"@ != "files"@,
        "mtime"@ != "totalSize"@,
        "mtime"@ != "scanPath"@,
        "mtime"@ != "unhandled"@,
        "ext"@ != "category"@,
        "ext"@ != "status"@,
        "ext"@ != "freed"@,
        "ext"@ != "message"@,
        "ext"@ != "kind"@,
        "ext"@ != "recycled"@,
        "ext"@ != "files"@,
        "ext"@ != "totalSize"@,
        "ext"@ != "scanPath"@,
        "ext"@ != "unhandled"@,
        "category"@ != "status"@,
        "category"@ != "freed"@,
        "category"@ != "message"@,
        "category"@ != "kind"@,
        "category"@ != "recycled"@,
        "category"@ != "files"@,
        "category"@ != "totalSize"@,
        "category"@ != "scanPath"@,
        "category"@ != "unhandled"@,
        "status"@ != "freed"@,
        "status"@ != "message"@,
        "status"@ != "kind"@,
        "status"@ != "recycled"@,
        "status"@ != "files"@,
        "status"@ != "totalSize"@,
        "status"@ != "scanPath"@,
        "status"@ != "unhandled"@,
        "freed"@ != "message"@,
        "freed"@ != "kind"@,
        "freed"@ != "recycled"@,
        "freed"@ != "files"@,
        "freed"@ != "totalSize"@,
        "freed"@ != "scanPath"@,
        "freed"@ != "unhandled"@,
        "message"@ != "kind"@,
        "message"@ != "recycled"@,
        "message"@ != "files"@,
        "message"@ != "totalSize"@,
        "message"@ != "scanPath"@,
        "message"@ != "unhandled"@,
        "kind"@ != "recycled"@,
        "kind"@ != "files"@,
        "kind"@ != "totalSize"@,
        "kind"@ != "scanPath"@,
        "kind"@ != "unhandled"@,
        "recycled"@ != "files"@,
        "recycled"@ != "totalSize"@,
        "recycled"@ != "scanPath"@,
        "recycled"@ != "unhandled"@,
        "files"@ != "totalSize"@,
        "files"@ != "scanPath"@,
        "files"@ != "unhandled"@,
        "totalSize"@ != "scanPath"@,
        "totalSize"@ != "unhandled"@,
        "scanPath"@ != "unhandled"@,
{
    reveal_strlit("path");
    reveal_strlit("name");
    reveal_strlit("size");
    reveal_strlit("mtime");
    reveal_strlit("ext");
    reveal_strlit("category");
    reveal_strlit("status");
    reveal_strlit("freed");
    reveal_strlit("message");
    reveal_strlit("kind");
    reveal_strlit("recycled");
    reveal_strlit("files");
    reveal_strlit("totalSize");
    reveal_strlit("scanPath");
    reveal_strlit("unhandled");
    assert("path"@.len() == 4);
    assert("name"@.len() == 4);
    assert("size"@.len() == 4);
    assert("mtime"@.len() == 5);
    assert("ext"@.len() == 3);
    assert("category"@.len() == 8);
    assert("status"@.len() == 6);
    assert("freed"@.len() == 5);
    assert("message"@.len() == 7);
    assert("kind"@.len() == 4);
    assert("recycled"@.len() == 8);
    assert("files"@.len() == 5);
    assert("totalSize"@.len() == 9);
    assert("scanPath"@.len() == 8);
    assert("unhandled"@.len() == 9);
    assert("path"@[0] != "name"@[0]);
    assert("path"@[0] != "size"@[0]);
    assert("path"@[0] != "kind"@[0]);
    assert("name"@[0] != "size"@[0]);
    assert("name"@[0] != "kind"@[0]);
    assert("size"@[0] != "kind"@[0]);
    assert("mtime"@[0] != "freed"@[0]);
    assert("mtime"@[0] != "files"@[0]);
    assert("category"@[0] != "recycled"@[0]);
    assert("category"@[0] != "scanPath"@[0]);
    assert("freed"@[1] != "files"@[1]);
    assert("recycled"@[0] != "scanPath"@[0]);
    assert("totalSize"@[0] != "unhandled"@[0]);
}

proof fn lemma_ext_texts()
    ensures
        "jpg"@ != "jpeg"@,
        "jpg"@ != "png"@,
        "jpg"@ != "gif"@,
        "jpg"@ != "bmp"@,
        "jpg"@ != "webp"@,
        "jpg"@ != "svg"@,
        "jpg"@ != "mp4"@,
        "jpg"@ != "avi"@,
        "jpg"@ != "mov"@,
        "jpg"@ != "mkv"@,
        "jpg"@ != "flv"@,
        "jpg"@ != "tmp"@,
        "jpg"@ != "log"@,
        "jpg"@ != "bak"@,
        "jpg"@ != "cache"@,
        "jpg"@ != "dat"@,
        "jpeg"@ != "png"@,
        "jpeg"@ != "gif"@,
        "jpeg"@ != "bmp"@,
        "jpeg"@ != "webp"@,
        "jpeg"@ != "svg"@,
        "jpeg"@ != "mp4"@,
        "jpeg"@ != "avi"@,
        "jpeg"@ != "mov"@,
        "jpeg"@ != "mkv"@,
        "jpeg"@ != "flv"@,
        "jpeg"@ != "tmp"@,
        "jpeg"@ != "log"@,
        "jpeg"@ != "bak"@,
        "jpeg"@ != "cache"@,
        "jpeg"@ != "dat"@,
        "png"@ != "gif"@,
        "png"@ != "bmp"@,
        "png"@ != "webp"@,
        "png"@ != "svg"@,
        "png"@ != "mp4"@,
        "png"@ != "avi"@,
        "png"@ != "mov"@,
        "png"@ != "mkv"@,
        "png"@ != "flv"@,
        "png"@ != "tmp"@,
        "png"@ != "log"@,
        "png"@ != "bak"@,
        "png"@ != "cache"@,
        "png"@ != "dat"@,
        "gif"@ != "bmp"@,
        "gif"@ != "webp"@,
        "gif"@ != "svg"@,
        "gif"@ != "mp4"@,
        "gif"@ != "avi"@,
        "gif"@ != "mov"@,
        "gif"@ != "mkv"@,
        "gif"@ != "flv"@,
        "gif"@ != "tmp"@,
        "gif"@ != "log"@,
        "gif"@ != "bak"@,
        "gif"@ != "cache"@,
        "gif"@ != "dat"@,
        "bmp"@ != "webp"@,
        "bmp"@ != "svg"@,
        "bmp"@ != "mp4"@,
        "bmp"@ != "avi"@,
        "bmp"@ != "mov"@,
        "bmp"@ != "mkv"@,
        "bmp"@ != "flv"@,
        "bmp"@ != "tmp"@,
        "bmp"@ != "log"@,
        "bmp"@ != "bak"@,
        "bmp"@ != "cache"@,
        "bmp"@ != "dat"@,
        "webp"@ != "svg"@,
        "webp"@ != "mp4"@,
        "webp"@ != "avi"@,
        "webp"@ != "mov"@,
        "webp"@ != "mkv"@,
        "webp"@ != "flv"@,
        "webp"@ != "tmp"@,
        "webp"@ != "log"@,
        "webp"@ != "bak"@,
        "webp"@ != "cache"@,
        "webp"@ != "dat"@,
        "svg"@ != "mp4"@,
        "svg"@ != "avi"@,
        "svg"@ != "mov"@,
        "svg"@ != "mkv"@,
        "svg"@ != "flv"@,
        "svg"@ != "tmp"@,
        "svg"@ != "log"@,
        "svg"@ != "bak"@,
        "svg"@ != "cache"@,
        "svg"@ != "dat"@,
        "mp4"@ != "avi"@,
        "mp4"@ != "mov"@,
        "mp4"@ != "mkv"@,
        "mp4"@ != "flv"@,
        "mp4"@ != "tmp"@,
        "mp4"@ != "log"@,
        "mp4"@ != "bak"@,
        "mp4"@ != "cache"@,
        "mp4"@ != "dat"@,
        "avi"@ != "mov"@,
        "avi"@ != "mkv"@,
        "avi"@ != "flv"@,
        "avi"@ != "tmp"@,
        "avi"@ != "log"@,
        "avi"@ != "bak"@,
        "avi"@ != "cache"@,
        "avi"@ != "dat"@,
        "mov"@ != "mkv"@,
        "mov"@ != "flv"@,
        "mov"@ != "tmp"@,
        "mov"@ != "log"@,
        "mov"@ != "bak"@,
        "mov"@ != "cache"@,
        "mov"@ != "dat"@,
        "mkv"@ != "flv"@,
        "mkv"@ != "tmp"@,
        "mkv"@ != "log"@,
        "mkv"@ != "bak"@,
        "mkv"@ != "cache"@,
        "mkv"@ != "dat"@,
        "flv"@ != "tmp"@,
        "flv"@ != "log"@,
        "flv"@ != "bak"@,
        "flv"@ != "cache"@,
        "flv"@ != "dat"@,
        "tmp"@ != "log"@,
        "tmp"@ != "bak"@,
        "tmp"@ != "cache"@,
        "tmp"@ != "dat"@,
        "log"@ != "bak"@,
        "log"@ != "cache"@,
        "log"@ != "dat"@,
        "bak"@ != "cache"@,
        "bak"@ != "dat"@,
        "cache"@ != "dat"@,
{
    reveal_strlit("jpg");
    reveal_strlit("jpeg");
    reveal_strlit("png");
    reveal_strlit("gif");
    reveal_strlit("bmp");
    reveal_strlit("webp");
    reveal_strlit("svg");
    reveal_strlit("mp4");
    reveal_strlit("avi");
    reveal_strlit("mov");
    reveal_strlit("mkv");
    reveal_strlit("flv");
    reveal_strlit("tmp");
    reveal_strlit("log");
    reveal_strlit("bak");
    reveal_strlit("cache");
    reveal_strlit("dat");
    assert("jpg"@.len() == 3);
    assert("jpeg"@.len() == 4);
    assert("png"@.len() == 3);
    assert("gif"@.len() == 3);
    assert("bmp"@.len() == 3);
    assert("webp"@.len() == 4);
    assert("svg"@.len() == 3);
    assert("mp4"@.len() == 3);
    assert("avi"@.len() == 3);
    assert("mov"@.len() == 3);
    assert("mkv"@.len() == 3);
    assert("flv"@.len() == 3);
    assert("tmp"@.len() == 3);
    assert("log"@.len() == 3);
    assert("bak"@.len() == 3);
    assert("cache"@.len() == 5);
    assert("dat"@.len() == 3);
    assert("jpg"@[0] != "png"@[0]);
    assert("jpg"@[0] != "gif"@[0]);
    assert("jpg"@[0] != "bmp"@[0]);
    assert("jpg"@[0] != "svg"@[0]);
    assert("jpg"@[0] != "mp4"@[0]);
    assert("jpg"@[0] != "avi"@[0]);
    assert("jpg"@[0] != "mov"@[0]);
    assert("jpg"@[0] != "mkv"@[0]);
    assert("jpg"@[0] != "flv"@[0]);
    assert("jpg"@[0] != "tmp"@[0]);
    assert("jpg"@[0] != "log"@[0]);
    assert("jpg"@[0] != "bak"@[0]);
    assert("jpg"@[0] != "dat"@[0]);
    assert("jpeg"@[0] != "webp"@[0]);
    assert("png"@[0] != "gif"@[0]);
    assert("png"@[0] != "bmp"@[0]);
    assert("png"@[0] != "svg"@[0]);
    assert("png"@[0] != "mp4"@[0]);
    assert("png"@[0] != "avi"@[0]);
    assert("png"@[0] != "mov"@[0]);
    assert("png"@[0] != "mkv"@[0]);
    assert("png"@[0] != "flv"@[0]);
    assert("png"@[0] != "tmp"@[0]);
    assert("png"@[0] != "log"@[0]);
    assert("png"@[0] != "bak"@[0]);
    assert("png"@[0] != "dat"@[0]);
    assert("gif"@[0] != "bmp"@[0]);
    assert("gif"@[0] != "svg"@[0]);
    assert("gif"@[0] != "mp4"@[0]);
    assert("gif"@[0] != "avi"@[0]);
    assert("gif"@[0] != "mov"@[0]);
    assert("gif"@[0] != "mkv"@[0]);
    assert("gif"@[0] != "flv"@[0]);
    assert("gif"@[0] != "tmp"@[0]);
    assert("gif"@[0] != "log"@[0]);
    assert("gif"@[0] != "bak"@[0]);
    assert("gif"@[0] != "dat"@[0]);
    assert("bmp"@[0] != "svg"@[0]);
    assert("bmp"@[0] != "mp4"@[0]);
    assert("bmp"@[0] != "avi"@[0]);
    assert("bmp"@[0] != "mov"@[0]);
    assert("bmp"@[0] != "mkv"@[0]);
    assert("bmp"@[0] != "flv"@[0]);
    assert("bmp"@[0] != "tmp"@[0]);
    assert("bmp"@[0] != "log"@[0]);
    assert("bmp"@[1] != "bak"@[1]);
    assert("bmp"@[0] != "dat"@[0]);
    assert("svg"@[0] != "mp4"@[0]);
    assert("svg"@[0] != "avi"@[0]);
    assert("svg"@[0] != "mov"@[0]);
    assert("svg"@[0] != "mkv"@[0]);
    assert("svg"@[0] != "flv"@[0]);
    assert("svg"@[0] != "tmp"@[0]);
    assert("svg"@[0] != "log"@[0]);
    assert("svg"@[0] != "bak"@[0]);
    assert("svg"@[0] != "dat"@[0]);
    assert("mp4"@[0] != "avi"@[0]);
    assert("mp4"@[1] != "mov"@[1]);
    assert("mp4"@[1] != "mkv"@[1]);
    assert("mp4"@[0] != "flv"@[0]);
    assert("mp4"@[0] != "tmp"@[0]);
    assert("mp4"@[0] != "log"@[0]);
    assert("mp4"@[0] != "bak"@[0]);
    assert("mp4"@[0] != "dat"@[0]);
    assert("avi"@[0] != "mov"@[0]);
    assert("avi"@[0] != "mkv"@[0]);
    assert("avi"@[0] != "flv"@[0]);
    assert("avi"@[0] != "tmp"@[0]);
    assert("avi"@[0] != "log"@[0]);
    assert("avi"@[0] != "bak"@[0]);
    assert("avi"@[0] != "dat"@[0]);
    assert("mov"@[1] != "mkv"@[1]);
    assert("mov"@[0] != "flv"@[0]);
    assert("mov"@[0] != "tmp"@[0]);
    assert("mov"@[0] != "log"@[0]);
    assert("mov"@[0] != "bak"@[0]);
    assert("mov"@[0] != "dat"@[0]);
    assert("mkv"@[0] != "flv"@[0]);
    assert("mkv"@[0] != "tmp"@[0]);
    assert("mkv"@[0] != "log"@[0]);
    assert("mkv"@[0] != "bak"@[0]);
    assert("mkv"@[0] != "dat"@[0]);
    assert("flv"@[0] != "tmp"@[0]);
    assert("flv"@[0] != "log"@[0]);
    assert("flv"@[0] != "bak"@[0]);
    assert("flv"@[0] != "dat"@[0]);
    assert("tmp"@[0] != "log"@[0]);
    assert("tmp"@[0] != "bak"@[0]);
    assert("tmp"@[0] != "dat"@[0]);
    assert("log"@[0] != "bak"@[0]);
    assert("log"@[0] != "dat"@[0]);
    assert("bak"@[0] != "dat"@[0]);
}

proof fn lemma_kind_texts()
    ensures
        "duplicates"@ != "bigfiles"@,
        "duplicates"@ != "empty"@,
        "duplicates"@ != "appdata"@,
        "bigfiles"@ != "empty"@,
        "bigfiles"@ != "appdata"@,
        "empty"@ != "appdata"@,
{
    reveal_strlit("duplicates");
    reveal_strlit("bigfiles");
    reveal_strlit("empty");
    reveal_strlit("appdata");
    assert("duplicates"@.len() == 10);
    assert("bigfiles"@.len() == 8);
    assert("empty"@.len() == 5);
    assert("appdata"@.len() == 7);
}

proof fn lemma_kept_texts()
    ensures
        "db"@ != "sqlite"@,
        "db"@ != "key"@,
        "db"@ != "docx"@,
        "db"@ != "jpg"@,
        "db"@ != "jpeg"@,
        "db"@ != "png"@,
        "db"@ != "gif"@,
        "db"@ != "bmp"@,
        "db"@ != "webp"@,
        "db"@ != "svg"@,
        "db"@ != "mp4"@,
        "db"@ != "avi"@,
        "db"@ != "mov"@,
        "db"@ != "mkv"@,
        "db"@ != "flv"@,
        "db"@ != "tmp"@,
        "db"@ != "log"@,
        "db"@ != "bak"@,
        "db"@ != "cache"@,
        "db"@ != "dat"@,
        "sqlite"@ != "key"@,
        "sqlite"@ != "docx"@,
        "sqlite"@ != "jpg"@,
        "sqlite"@ != "jpeg"@,
        "sqlite"@ != "png"@,
        "sqlite"@ != "gif"@,
        "sqlite"@ != "bmp"@,
        "sqlite"@ != "webp"@,
        "sqlite"@ != "svg"@,
        "sqlite"@ != "mp4"@,
        "sqlite"@ != "avi"@,
        "sqlite"@ != "mov"@,
        "sqlite"@ != "mkv"@,
        "sqlite"@ != "flv"@,
        "sqlite"@ != "tmp"@,
        "sqlite"@ != "log"@,
        "sqlite"@ != "bak"@,
        "sqlite"@ != "cache"@,
        "sqlite"@ != "dat"@,
        "key"@ != "docx"@,
        "key"@ != "jpg"@,
        "key"@ != "jpeg"@,
        "key"@ != "png"@,
        "key"@ != "gif"@,
        "key"@ != "bmp"@,
        "key"@ != "webp"@,
        "key"@ != "svg"@,
        "key"@ != "mp4"@,
        "key"@ != "avi"@,
        "key"@ != "mov"@,
        "key"@ != "mkv"@,
        "key"@ != "flv"@,
        "key"@ != "tmp"@,
        "key"@ != "log"@,
        "key"@ != "bak"@,
        "key"@ != "cache"@,
        "key"@ != "dat"@,
        "docx"@ != "jpg"@,
        "docx"@ != "jpeg"@,
        "docx"@ != "png"@,
        "docx"@ != "gif"@,
        "docx"@ != "bmp"@,
        "docx"@ != "webp"@,
        "docx"@ != "svg"@,
        "docx"@ != "mp4"@,
        "docx"@ != "avi"@,
        "docx"@ != "mov"@,
        "docx"@ != "mkv"@,
        "docx"@ != "flv"@,
        "docx"@ != "tmp"@,
        "docx"@ != "log"@,
        "docx"@ != "bak"@,
        "docx"@ != "cache"@,
        "docx"@ != "dat"@,
        "jpg"@ != "jpeg"@,
        "jpg"@ != "png"@,
        "jpg"@ != "gif"@,
        "jpg"@ != "bmp"@,
        "jpg"@ != "webp"@,
        "jpg"@ != "svg"@,
        "jpg"@ != "mp4"@,
        "jpg"@ != "avi"@,
        "jpg"@ != "mov"@,
        "jpg"@ != "mkv"@,
        "jpg"@ != "flv"@,
        "jpg"@ != "tmp"@,
        "jpg"@ != "log"@,
        "jpg"@ != "bak"@,
        "jpg"@ != "cache"@,
        "jpg"@ != "dat"@,
        "jpeg"@ != "png"@,
        "jpeg"@ != "gif"@,
        "jpeg"@ != "bmp"@,
        "jpeg"@ != "webp"@,
        "jpeg"@ != "svg"@,
        "jpeg"@ != "mp4"@,
        "jpeg"@ != "avi"@,
        "jpeg"@ != "mov"@,
        "jpeg"@ != "mkv"@,
        "jpeg"@ != "flv"@,
        "jpeg"@ != "tmp"@,
        "jpeg"@ != "log"@,
        "jpeg"@ != "bak"@,
        "jpeg"@ != "cache"@,
        "jpeg"@ != "dat"@,
        "png"@ != "gif"@,
        "png"@ != "bmp"@,
        "png"@ != "webp"@,
        "png"@ != "svg"@,
        "png"@ != "mp4"@,
        "png"@ != "avi"@,
        "png"@ != "mov"@,
        "png"@ != "mkv"@,
        "png"@ != "flv"@,
        "png"@ != "tmp"@,
        "png"@ != "log"@,
        "png"@ != "bak"@,
        "png"@ != "cache"@,
        "png"@ != "dat"@,
        "gif"@ != "bmp"@,
        "gif"@ != "webp"@,
        "gif"@ != "svg"@,
        "gif"@ != "mp4"@,
        "gif"@ != "avi"@,
        "gif"@ != "mov"@,
        "gif"@ != "mkv"@,
        "gif"@ != "flv"@,
        "gif"@ != "tmp"@,
        "gif"@ != "log"@,
        "gif"@ != "bak"@,
        "gif"@ != "cache"@,
        "gif"@ != "dat"@,
        "bmp"@ != "webp"@,
        "bmp"@ != "svg"@,
        "bmp"@ != "mp4"@,
        "bmp"@ != "avi"@,
        "bmp"@ != "mov"@,
        "bmp"@ != "mkv"@,
        "bmp"@ != "flv"@,
        "bmp"@ != "tmp"@,
        "bmp"@ != "log"@,
        "bmp"@ != "bak"@,
        "bmp"@ != "cache"@,
        "bmp"@ != "dat"@,
        "webp"@ != "svg"@,
        "webp"@ != "mp4"@,
        "webp"@ != "avi"@,
        "webp"@ != "mov"@,
        "webp"@ != "mkv"@,
        "webp"@ != "flv"@,
        "webp"@ != "tmp"@,
        "webp"@ != "log"@,
        "webp"@ != "bak"@,
        "webp"@ != "cache"@,
        "webp"@ != "dat"@,
        "svg"@ != "mp4"@,
        "svg"@ != "avi"@,
        "svg"@ != "mov"@,
        "svg"@ != "mkv"@,
        "svg"@ != "flv"@,
        "svg"@ != "tmp"@,
        "svg"@ != "log"@,
        "svg"@ != "bak"@,
        "svg"@ != "cache"@,
        "svg"@ != "dat"@,
        "mp4"@ != "avi"@,
        "mp4"@ != "mov"@,
        "mp4"@ != "mkv"@,
        "mp4"@ != "flv"@,
        "mp4"@ != "tmp"@,
        "mp4"@ != "log"@,
        "mp4"@ != "bak"@,
        "mp4"@ != "cache"@,
        "mp4"@ != "dat"@,
        "avi"@ != "mov"@,
        "avi"@ != "mkv"@,
        "avi"@ != "flv"@,
        "avi"@ != "tmp"@,
        "avi"@ != "log"@,
        "avi"@ != "bak"@,
        "avi"@ != "cache"@,
        "avi"@ != "dat"@,
        "mov"@ != "mkv"@,
        "mov"@ != "flv"@,
        "mov"@ != "tmp"@,
        "mov"@ != "log"@,
        "mov"@ != "bak"@,
        "mov"@ != "cache"@,
        "mov"@ != "dat"@,
        "mkv"@ != "flv"@,
        "mkv"@ != "tmp"@,
        "mkv"@ != "log"@,
        "mkv"@ != "bak"@,
        "mkv"@ != "cache"@,
        "mkv"@ != "dat"@,
        "flv"@ != "tmp"@,
        "flv"@ != "log"@,
        "flv"@ != "bak"@,
        "flv"@ != "cache"@,
        "flv"@ != "dat"@,
        "tmp"@ != "log"@,
        "tmp"@ != "bak"@,
        "tmp"@ != "cache"@,
        "tmp"@ != "dat"@,
        "log"@ != "bak"@,
        "log"@ != "cache"@,
        "log"@ != "dat"@,
        "bak"@ != "cache"@,
        "bak"@ != "dat"@,
        "cache"@ != "dat"@,
{
    reveal_strlit("db");
    reveal_strlit("sqlite");
    reveal_strlit("key");
    reveal_strlit("docx");
    reveal_strlit("jpg");
    reveal_strlit("jpeg");
    reveal_strlit("png");
    reveal_strlit("gif");
    reveal_strlit("bmp");
    reveal_strlit("webp");
    reveal_strlit("svg");
    reveal_strlit("mp4");
    reveal_strlit("avi");
    reveal_strlit("mov");
    reveal_strlit("mkv");
    reveal_strlit("flv");
    reveal_strlit("tmp");
    reveal_strlit("log");
    reveal_strlit("bak");
    reveal_strlit("cache");
    reveal_strlit("dat");
    assert("db"@.len() == 2);
    assert("sqlite"@.len() == 6);
    assert("key"@.len() == 3);
    assert("docx"@.len() == 4);
    assert("jpg"@.len() == 3);
    assert("jpeg"@.len() == 4);
    assert("png"@.len() == 3);
    assert("gif"@.len() == 3);
    assert("bmp"@.len() == 3);
    assert("webp"@.len() == 4);
    assert("svg"@.len() == 3);
    assert("mp4"@.len() == 3);
    assert("avi"@.len() == 3);
    assert("mov"@.len() == 3);
    assert("mkv"@.len() == 3);
    assert("flv"@.len() == 3);
    assert("tmp"@.len() == 3);
    assert("log"@.len() == 3);
    assert("bak"@.len() == 3);
    assert("cache"@.len() == 5);
    assert("dat"@.len() == 3);
    assert("key"@[0] != "jpg"@[0]);
    assert("key"@[0] != "png"@[0]);
    assert("key"@[0] != "gif"@[0]);
    assert("key"@[0] != "bmp"@[0]);
    assert("key"@[0] != "svg"@[0]);
    assert("key"@[0] != "mp4"@[0]);
    assert("key"@[0] != "avi"@[0]);
    assert("key"@[0] != "mov"@[0]);
    assert("key"@[0] != "mkv"@[0]);
    assert("key"@[0] != "flv"@[0]);
    assert("key"@[0] != "tmp"@[0]);
    assert("key"@[0] != "log"@[0]);
    assert("key"@[0] != "bak"@[0]);
    assert("key"@[0] != "dat"@[0]);
    assert("docx"@[0] != "jpeg"@[0]);
    assert("docx"@[0] != "webp"@[0]);
    assert("jpg"@[0] != "png"@[0]);
    assert("jpg"@[0] != "gif"@[0]);
    assert("jpg"@[0] != "bmp"@[0]);
    assert("jpg"@[0] != "svg"@[0]);
    assert("jpg"@[0] != "mp4"@[0]);
    assert("jpg"@[0] != "avi"@[0]);
    assert("jpg"@[0] != "mov"@[0]);
    assert("jpg"@[0] != "mkv"@[0]);
    assert("jpg"@[0] != "flv"@[0]);
    assert("jpg"@[0] != "tmp"@[0]);
    assert("jpg"@[0] != "log"@[0]);
    assert("jpg"@[0] != "bak"@[0]);
    assert("jpg"@[0] != "dat"@[0]);
    assert("jpeg"@[0] != "webp"@[0]);
    assert("png"@[0] != "gif"@[0]);
    assert("png"@[0] != "bmp"@[0]);
    assert("png"@[0] != "svg"@[0]);
    assert("png"@[0] != "mp4"@[0]);
    assert("png"@[0] != "avi"@[0]);
    assert("png"@[0] != "mov"@[0]);
    assert("png"@[0] != "mkv"@[0]);
    assert("png"@[0] != "flv"@[0]);
    assert("png"@[0] != "tmp"@[0]);
    assert("png"@[0] != "log"@[0]);
    assert("png"@[0] != "bak"@[0]);
    assert("png"@[0] != "dat"@[0]);
    assert("gif"@[0] != "bmp"@[0]);
    assert("gif"@[0] != "svg"@[0]);
    assert("gif"@[0] != "mp4"@[0]);
    assert("gif"@[0] != "avi"@[0]);
    assert("gif"@[0] != "mov"@[0]);
    assert("gif"@[0] != "mkv"@[0]);
    assert("gif"@[0] != "flv"@[0]);
    assert("gif"@[0] != "tmp"@[0]);
    assert("gif"@[0] != "log"@[0]);
    assert("gif"@[0] != "bak"@[0]);
    assert("gif"@[0] != "dat"@[0]);
    assert("bmp"@[0] != "svg"@[0]);
    assert("bmp"@[0] != "mp4"@[0]);
    assert("bmp"@[0] != "avi"@[0]);
    assert("bmp"@[0] != "mov"@[0]);
    assert("bmp"@[0] != "mkv"@[0]);
    assert("bmp"@[0] != "flv"@[0]);
    assert("bmp"@[0] != "tmp"@[0]);
    assert("bmp"@[0] != "log"@[0]);
    assert("bmp"@[1] != "bak"@[1]);
    assert("bmp"@[0] != "dat"@[0]);
    assert("svg"@[0] != "mp4"@[0]);
    assert("svg"@[0] != "avi"@[0]);
    assert("svg"@[0] != "mov"@[0]);
    assert("svg"@[0] != "mkv"@[0]);
    assert("svg"@[0] != "flv"@[0]);
    assert("svg"@[0] != "tmp"@[0]);
    assert("svg"@[0] != "log"@[0]);
    assert("svg"@[0] != "bak"@[0]);
    assert("svg"@[0] != "dat"@[0]);
    assert("mp4"@[0] != "avi"@[0]);
    assert("mp4"@[1] != "mov"@[1]);
    assert("mp4"@[1] != "mkv"@[1]);
    assert("mp4"@[0] != "flv"@[0]);
    assert("mp4"@[0] != "tmp"@[0]);
    assert("mp4"@[0] != "log"@[0]);
    assert("mp4"@[0] != "bak"@[0]);
    assert("mp4"@[0] != "dat"@[0]);
    assert("avi"@[0] != "mov"@[0]);
    assert("avi"@[0] != "mkv"@[0]);
    assert("avi"@[0] != "flv"@[0]);
    assert("avi"@[0] != "tmp"@[0]);
    assert("avi"@[0] != "log"@[0]);
    assert("avi"@[0] != "bak"@[0]);
    assert("avi"@[0] != "dat"@[0]);
    assert("mov"@[1] != "mkv"@[1]);
    assert("mov"@[0] != "flv"@[0]);
    assert("mov"@[0] != "tmp"@[0]);
    assert("mov"@[0] != "log"@[0]);
    assert("mov"@[0] != "bak"@[0]);
    assert("mov"@[0] != "dat"@[0]);
    assert("mkv"@[0] != "flv"@[0]);
    assert("mkv"@[0] != "tmp"@[0]);
    assert("mkv"@[0] != "log"@[0]);
    assert("mkv"@[0] != "bak"@[0]);
    assert("mkv"@[0] != "dat"@[0]);
    assert("flv"@[0] != "tmp"@[0]);
    assert("flv"@[0] != "log"@[0]);
    assert("flv"@[0] != "bak"@[0]);
    assert("flv"@[0] != "dat"@[0]);
    assert("tmp"@[0] != "log"@[0]);
    assert("tmp"@[0] != "bak"@[0]);
    assert("tmp"@[0] != "dat"@[0]);
    assert("log"@[0] != "bak"@[0]);
    assert("log"@[0] != "dat"@[0]);
    assert("bak"@[0] != "dat"@[0]);
}


// ------------------------------------------------------------------------ received files

/// What the files of a search are for: images, videos, files that are not needed any more, and
/// data; no database, key or document is of any kind.
pub proof fn law_kinds_of_files()
    ensures
        kind_of_ext("jpg"@) == Some("image"@) && kind_of_ext("jpeg"@) == Some("image"@)
            && kind_of_ext("png"@) == Some("image"@) && kind_of_ext("gif"@) == Some("image"@)
            && kind_of_ext("bmp"@) == Some("image"@) && kind_of_ext("webp"@) == Some("image"@)
            && kind_of_ext("svg"@) == Some("image"@),
        kind_of_ext("mp4"@) == Some("video"@) && kind_of_ext("avi"@) == Some("video"@)
            && kind_of_ext("mov"@) == Some("video"@) && kind_of_ext("mkv"@) == Some("video"@)
            && kind_of_ext("flv"@) == Some("video"@),
        kind_of_ext("tmp"@) == Some("cache"@) && kind_of_ext("log"@) == Some("cache"@)
            && kind_of_ext("bak"@) == Some("cache"@) && kind_of_ext("cache"@) == Some("cache"@),
        kind_of_ext("dat"@) == Some("data"@),
        kind_of_ext("db"@) is None && kind_of_ext("sqlite"@) is None && kind_of_ext("key"@) is None
            && kind_of_ext("docx"@) is None,
{
    lemma_kept_texts();
}

/// Exactly images are shown, each under its own type.
pub proof fn law_types_of_images(ext: Seq<char>)
    ensures
        mime_of("jpg"@) == Some("image/jpeg"@),
        mime_of("jpeg"@) == Some("image/jpeg"@),
        mime_of("png"@) == Some("image/png"@),
        mime_of("gif"@) == Some("image/gif"@),
        mime_of("bmp"@) == Some("image/bmp"@),
        mime_of("webp"@) == Some("image/webp"@),
        mime_of("svg"@) == Some("image/svg+xml"@),
        mime_of(ext) is Some <==> kind_of_ext(ext) == Some("image"@),
{
    lemma_ext_texts();
    reveal_strlit("image");
    reveal_strlit("video");
    reveal_strlit("cache");
    reveal_strlit("data");
    assert("image"@[0] == 'i' && "video"@[0] == 'v' && "cache"@[0] == 'c' && "data"@[0] == 'd');
}

/// A file below the first directory that is of a kind is reported with its path, its size and
/// its kind, once; one of no kind is not, nor a link; a directory is gone into unless it is too
/// deep or, near the first one, holds messages.
pub proof fn law_received_file_is_reported(w: WalkV, dir: Seq<char>, depth: nat, f: FoundV)
    requires
        w.items.len() < 2000,
        f.exact,
    ensures
        ({
            let now = after_entry(w, dir, depth, f);
            let kind = kind_of_ext(crate::commands::fileclean::extension_key(f.name));
            &&& f.kind matches Kind::File { size, mtime } ==> depth > 0 && kind is Some ==> now.items
                == w.items.push(file_item(dir, f.name, size, mtime, kind->0)) && now.queue == w.queue
            &&& f.kind matches Kind::File { size, mtime } ==> depth == 0 || kind is None ==> now == w
            &&& f.kind == Kind::Dir && depth < 4 && !(depth < 2 && holds_messages(f.name))
                ==> now.queue == w.queue.push(
                (crate::paths::behind_path(dir, f.name), depth + 1),
            ) && now.items == w.items
            &&& f.kind == Kind::Dir && (depth >= 4 || (depth < 2 && holds_messages(f.name)))
                ==> now == w
            &&& !(f.kind is File) && !(f.kind is Dir) ==> now == w
        }),
{
}

/// A reported file is told with its path, its size and its kind.
pub proof fn law_received_file_is_told(
    dir: Seq<char>,
    name: Seq<char>,
    size: u64,
    mtime: u64,
    kind: Seq<char>,
)
    ensures
        ({
            let v = file_item(dir, name, size, mtime, kind);
            &&& text_member(v, "path"@) == Some(
                replaced(crate::paths::behind_path(dir, name), '/', '\\'),
            )
            &&& text_member(v, "name"@) == Some(name)
            &&& member(v, "size"@) == Some(JsonV::Num(dec(size as nat)))
            &&& text_member(v, "mtime"@) == Some(dec(mtime as nat))
            &&& text_member(v, "category"@) == Some(kind)
        }),
{
    lemma_file_keys();
    let m = file_item(dir, name, size, mtime, kind)->Obj_0;
    lemma_member_at(m, 0);
    lemma_member_at(m, 1);
    lemma_member_at(m, 2);
    lemma_member_at(m, 3);
    lemma_member_at(m, 5);
}

/// The size of a file of a list.
pub open spec fn item_sizes(items: Seq<JsonV>) -> spec_fn(int) -> int {
    |i: int| item_size(items[i]) as int
}

/// The size of a search is that of its files together, as long as it fits.
pub proof fn law_received_size(items: Seq<JsonV>, n: int)
    requires
        0 <= n <= items.len(),
        added(n, item_sizes(items)) <= u64::MAX,
    ensures
        total_size(items, n) == added(n, item_sizes(items)),
        0 <= added(n, item_sizes(items)),
    decreases n,
{
    if n > 0 {
        lemma_not_less(items, n - 1);
        law_received_size(items, n - 1);
    }
}

proof fn lemma_not_less(items: Seq<JsonV>, n: int)
    requires
        0 <= n < items.len(),
    ensures
        added(n, item_sizes(items)) <= added(n + 1, item_sizes(items)),
{
    assert(item_sizes(items)(n) >= 0);
}

/// What is told of a search: its files, and how many entries could not be named.
pub proof fn law_received_search_is_told(items: Seq<JsonV>, resolved: Seq<char>, unhandled: nat)
    ensures
        ({
            let r = scan_reply(items, resolved, unhandled);
            let d = member(r, "data"@)->0;
            &&& bool_member(r, "success"@) == Some(true)
            &&& array_member(d, "files"@) == Some(items)
            &&& text_member(d, "totalSize"@) == Some(dec(total_size(items, items.len() as int)))
            &&& text_member(d, "scanPath"@) == Some(resolved)
            &&& member(d, "unhandled"@) == Some(JsonV::Num(dec(unhandled)))
        }),
{
    lemma_batch_keys();
    lemma_file_keys();
    let m = scan_reply(items, resolved, unhandled)->Obj_0;
    lemma_member_at(m, 0);
    lemma_member_at(m, 1);
    let d = m[1].1->Obj_0;
    lemma_member_at(d, 0);
    lemma_member_at(d, 1);
    lemma_member_at(d, 2);
    lemma_member_at(d, 3);
}

/// Only what a search has found, and lies below its directory, may be touched: a path is taken
/// for a search exactly where both hold.
pub proof fn law_scope(s: ScopeV, path: Seq<char>)
    ensures
        covers(s, path) <==> s.files.contains(key_of(path)) && s.root.is_prefix_of(key_of(path)),
{
}

/// Every file that a search reports is covered by what is kept of it.
pub proof fn law_reported_is_kept(items: Seq<JsonV>, n: int, i: int)
    requires
        0 <= i < n <= items.len(),
        text_member(items[i], "path"@) is Some,
    ensures
        item_keys(items, n).contains(key_of(text_member(items[i], "path"@)->0)),
    decreases n,
{
    if i < n - 1 {
        law_reported_is_kept(items, n - 1, i);
    }
}

/// A directory is searched where it is a plain directory, its path is short enough and, where
/// one is asked for, it is the one that is set.
pub proof fn law_directory_to_search(place: Place, custom: Option<Seq<char>>, resolved: Seq<char>)
    ensures
        place == Place::Missing ==> root_refusal(place, custom, resolved) is Some,
        place == Place::Other ==> root_refusal(place, custom, resolved) is Some,
        crate::text::byte_length(resolved) > 400 ==> root_refusal(place, custom, resolved) is Some,
        custom matches Some(c) && c.len() > 0 && key_of(crate::protect::bare(c)) != key_of(
            crate::protect::bare(resolved),
        ) ==> root_refusal(place, custom, resolved) is Some,
        place != Place::Missing && place != Place::Other && crate::text::byte_length(resolved) <= 400
            && custom is None ==> root_refusal(place, custom, resolved) is None,
{
}

/// The directory that is set is searched, whatever the usual one is; the usual one only where
/// none is set. Each kind of program has its own.
pub proof fn law_directory_that_is_set(ty: Seq<char>, settings: JsonV, usual: Option<Seq<char>>)
    ensures
        text_member(settings, setting_of(ty)) matches Some(d) && d.len() > 0 ==> dir_to_scan(
            ty,
            settings,
            usual,
        ) == text_member(settings, setting_of(ty)),
        text_member(settings, setting_of(ty)) is None ==> dir_to_scan(ty, settings, usual) == usual,
        setting_of("qq"@) == "qqFileDir"@,
        setting_of("wechat"@) == "wechatFileDir"@,
{
    reveal_strlit("qq");
    reveal_strlit("wechat");
    assert("qq"@.len() == 2 && "wechat"@.len() == 6);
}

/// An image is shown only where the search of its window has found it, it is a file of a size
/// that can be shown, and it is an image.
pub proof fn law_image_is_shown(s: Scopes, label: Seq<char>, path: Seq<char>, size: u64)
    ensures
        image_refusal(s, label, path) is None <==> path.len() > 0 && crate::text::byte_length(path)
            <= 400 && slot_of(s, owner_of(label), path) is Some,
        file_refusal(path, Some(size)) is None <==> size <= 10_485_760 && mime_of(
            crate::commands::fileclean::extension_key(path),
        ) is Some,
        file_refusal(path, None) is Some,
{
}

/// A file is deleted only where the search of its window has found it and it is a plain file.
pub proof fn law_received_file_is_deleted(
    s: Scopes,
    label: Seq<char>,
    path: Seq<char>,
    is_file: bool,
)
    ensures
        delete_refusal(s, label, path, is_file) is None <==> path.len() > 0
            && crate::text::byte_length(path) <= 400 && slot_of(s, owner_of(label), path) is Some
            && is_file,
{
}

proof fn lemma_files_refusal(s: ScopeV, files: Seq<JsonV>, plain: Seq<bool>, i: int)
    requires
        0 <= i <= files.len(),
    ensures
        files_refusal(s, files, plain, i) is None <==> forall|k: int|
            i <= k < files.len() ==> covers(s, path_named(#[trigger] files[k])) && plain[k],
    decreases files.len() - i,
{
    if i < files.len() {
        lemma_files_refusal(s, files, plain, i + 1);
        if files_refusal(s, files, plain, i) is None {
            assert forall|k: int| i <= k < files.len() implies covers(
                s,
                path_named(#[trigger] files[k]),
            ) && plain[k] by {}
        } else if forall|k: int|
            i <= k < files.len() ==> covers(s, path_named(#[trigger] files[k])) && plain[k] {
            assert(covers(s, path_named(files[i])));
        }
    }
}

/// A request is done only where every one of its files was found by one search and is a plain
/// file.
pub proof fn law_batch(s: Scopes, label: Seq<char>, files: Seq<JsonV>, plain: Seq<bool>)
    requires
        batch_type(s, label, files, plain) is Ok,
    ensures
        files.len() > 0,
        s.at(label, batch_type(s, label, files, plain)->Ok_0) is Some,
        forall|k: int|
            0 <= k < files.len() ==> covers(
                s.at(label, batch_type(s, label, files, plain)->Ok_0)->0,
                path_named(#[trigger] files[k]),
            ) && plain[k],
{
    let t = slot_of(s, label, path_named(files[0]))->0;
    lemma_files_refusal(s.at(label, t)->0, files, plain, 0);
}

/// The files of a request that were deleted.
pub open spec fn gone(results: Seq<Removed>) -> spec_fn(int) -> bool {
    |i: int| results[i].failure is None
}

/// The files of a request that were not.
pub open spec fn stayed(results: Seq<Removed>) -> spec_fn(int) -> bool {
    |i: int| results[i].failure is Some
}

/// What a file of a request has freed.
pub open spec fn freed_at(results: Seq<Removed>) -> spec_fn(int) -> int {
    |i: int|
        if results[i].failure is None {
            results[i].size as int
        } else {
            0
        }
}

/// Each file of a request is counted as deleted or as failed, only what was deleted has freed
/// anything, and each is told in its turn.
pub proof fn law_batch_is_counted(files: Seq<JsonV>, results: Seq<Removed>, n: int, i: int)
    requires
        0 <= i < n <= files.len(),
        n <= results.len(),
    ensures
        ({
            let b = batch_of(files, results, n);
            &&& b.success == count(n, gone(results))
            &&& b.failed == count(n, stayed(results))
            &&& b.details.len() == n
            &&& b.details[i] == file_detail(path_named(files[i]), results[i])
            &&& b.entries.len() == b.success
            &&& results[i].failure is None ==> b.keys.contains(key_of(path_named(files[i])))
            &&& added(n, freed_at(results)) <= u64::MAX ==> b.freed == added(n, freed_at(results))
            &&& 0 <= added(n, freed_at(results))
        }),
    decreases n,
{
    let b = batch_of(files, results, n);
    let a = batch_of(files, results, n - 1);
    assert(freed_at(results)(n - 1) >= 0);
    if n > 1 {
        law_batch_is_counted(
            files,
            results,
            n - 1,
            if i < n - 1 {
                i
            } else {
                0
            },
        );
    } else {
        assert(added(0, freed_at(results)) == 0);
        assert(count(0, gone(results)) == 0 && count(0, stayed(results)) == 0);
    }
    if results[i].failure is None {
        let k = key_of(path_named(files[i]));
        if i == n - 1 {
            assert(b.keys[a.keys.len() as int] == k);
        } else {
            let j = choose|j: int| 0 <= j < a.keys.len() && a.keys[j] == k;
            assert(b.keys[j] == k);
        }
    }
}

/// What is told of a file of a request: that it is done, with its size, or that it failed, and
/// why.
pub proof fn law_batch_detail(path: Seq<char>, r: Removed)
    ensures
        text_member(file_detail(path, r), "path"@) == Some(path),
        r.failure is None ==> text_member(file_detail(path, r), "status"@) == Some("ok"@) && member(
            file_detail(path, r),
            "freed"@,
        ) == Some(JsonV::Num(dec(r.size as nat))),
        r.failure matches Some(m) ==> text_member(file_detail(path, r), "status"@) == Some("error"@)
            && member(file_detail(path, r), "freed"@) == Some(JsonV::Num(dec(0))) && text_member(
            file_detail(path, r),
            "message"@,
        ) == Some(m@),
{
    lemma_file_keys();
    let m = file_detail(path, r)->Obj_0;
    lemma_member_at(m, 0);
    lemma_member_at(m, 1);
    lemma_member_at(m, 2);
    lemma_member_at(m, 3);
}

/// What is told of a request: what was freed, how many files were deleted and how many not.
pub proof fn law_batch_is_told(b: BatchV)
    ensures
        ({
            let d = member(batch_reply(b), "data"@)->0;
            &&& text_member(d, "totalFreed"@) == Some(dec(b.freed))
            &&& member(d, "success"@) == Some(JsonV::Num(dec(b.success)))
            &&& member(d, "failed"@) == Some(JsonV::Num(dec(b.failed)))
            &&& member(d, "recycled"@) == Some(JsonV::Num(dec(b.success)))
            &&& array_member(d, "details"@) == Some(b.details)
        }),
{
    lemma_batch_keys();
    let m = batch_reply(b)->Obj_0;
    lemma_member_at(m, 1);
    let d = m[1].1->Obj_0;
    lemma_member_at(d, 0);
    lemma_member_at(d, 1);
    lemma_member_at(d, 2);
    lemma_member_at(d, 3);
    lemma_member_at(d, 4);
}

/// What is written down of a deleted file: its path, its size, and that it went to the recycle
/// bin.
pub proof fn law_deleted_file_is_put_down(path: Seq<char>, size: nat)
    ensures
        text_member(file_entry(path, "freed"@, size), "path"@) == Some(replaced(path, '/', '\\')),
        member(file_entry(path, "freed"@, size), "freed"@) == Some(JsonV::Num(dec(size))),
        member(file_entry(path, "size"@, size), "size"@) == Some(JsonV::Num(dec(size))),
        bool_member(file_entry(path, "freed"@, size), "recycled"@) == Some(true),
{
    lemma_file_keys();
    let m = file_entry(path, "freed"@, size)->Obj_0;
    lemma_member_at(m, 0);
    lemma_member_at(m, 2);
    lemma_member_at(m, 3);
    lemma_member_at(file_entry(path, "size"@, size)->Obj_0, 2);
}

// ------------------------------------------------------------------------------- finder

/// The four kinds of search have their names, and nothing else is one.
pub proof fn law_kinds_of_search(s: Seq<char>)
    ensures
        kind_named("duplicates"@) == Some(ScanKind::Duplicates),
        kind_named("bigfiles"@) == Some(ScanKind::BigFiles),
        kind_named("empty"@) == Some(ScanKind::Empty),
        kind_named("appdata"@) == Some(ScanKind::AppData),
        kind_named(s) is Some ==> s == "duplicates"@ || s == "bigfiles"@ || s == "empty"@ || s
            == "appdata"@,
{
    lemma_kind_texts();
}

/// The numbers of a search: each as it is asked for, and else as usual.
pub proof fn law_numbers_of_search(v: JsonV, k: int)
    requires
        crate::value::given_size(Some(v)) == Some(k),
        1 <= k <= u64::MAX,
    ensures
        numbers_for(ScanKind::Duplicates, Some(v), None, None).min_size == k,
        numbers_for(ScanKind::BigFiles, None, Some(v), None).count == k,
        numbers_for(ScanKind::AppData, None, None, Some(v)).min_size_mb == k,
        numbers_for(ScanKind::Duplicates, None, None, None).min_size == 0,
        numbers_for(ScanKind::BigFiles, None, None, None).count == 50,
        numbers_for(ScanKind::AppData, None, None, None).min_size_mb == 10,
{
}

/// A search starts where it has a directory to start from; one for applications always does.
pub proof fn law_search_starts(asked: nat, found: nat)
    ensures
        start_refusal(ScanKind::Duplicates, asked, found) is None <==> found > 0,
        start_refusal(ScanKind::BigFiles, asked, found) is None <==> asked > 0,
        start_refusal(ScanKind::Empty, asked, found) is None <==> asked > 0,
        start_refusal(ScanKind::AppData, asked, found) is None,
{
}

/// Every directory that is asked for is searched, as long as there are not too many of them and
/// its path is not too long.
pub proof fn law_directories_of_search(list: Seq<JsonV>, env: Env, n: int, i: int)
    requires
        0 <= i < n <= list.len() <= 50,
        0 < trimmed(as_text(list[i])).len() <= 400,
    ensures
        start_dirs(list, env, n).contains(
            crate::commands::finder::with_vars(trimmed(as_text(list[i])), 0, env),
        ),
        start_dirs(list, env, n).len() <= n,
    decreases n,
{
    let x = crate::commands::finder::with_vars(trimmed(as_text(list[i])), 0, env);
    let now = start_dirs(list, env, n);
    let before = start_dirs(list, env, n - 1);
    lemma_start_len(list, env, n);
    lemma_start_len(list, env, n - 1);
    if i == n - 1 {
        assert(now[before.len() as int] == x);
    } else {
        law_directories_of_search(list, env, n - 1, i);
        let k = choose|k: int| 0 <= k < before.len() && before[k] == x;
        assert(now[k] == x);
    }
}

proof fn lemma_start_len(list: Seq<JsonV>, env: Env, n: int)
    requires
        0 <= n <= list.len(),
    ensures
        start_dirs(list, env, n).len() <= n,
    decreases n,
{
    if n > 0 {
        lemma_start_len(list, env, n - 1);
    }
}

/// What was found is a directory where it is an empty one or that of an application, and else a
/// file; it keeps its path and its time.
pub proof fn law_found_is_kept(it: JsonV, path: Seq<char>, ts: u64, cwd: Option<Seq<char>>)
    ensures
        ({
            let s = snap_of(it, path, ts, cwd);
            &&& s.path == path
            &&& s.ts == ts
            &&& s.key == crate::commands::finder::key_of(path, cwd)
            &&& text_member(it, "type"@) == Some("emptyfolder"@) ==> s.dir && s.empty
            &&& text_member(it, "type"@) == Some("appdata"@) ==> s.dir && !s.empty
            &&& text_member(it, "type"@) != Some("emptyfolder"@) && text_member(it, "type"@) != Some(
                "appdata"@,
            ) ==> !s.dir && !s.empty
        }),
{
    lemma_kind_texts();
    reveal_strlit("emptyfolder");
    reveal_strlit("appdata");
    assert("emptyfolder"@.len() == 11 && "appdata"@.len() == 7);
}

/// An entry is deleted only while it is what it was found to be: a file a file, a directory a
/// directory, and one that was empty still empty.
pub proof fn law_only_unchanged_is_deleted(e: SnapV, n: nat)
    ensures
        !unchanged(e, Standing::Unseen),
        !unchanged(e, Standing::Other),
        unchanged(e, Standing::File) <==> !e.dir,
        forall|s: Standing|
            s is Dir && #[trigger] unchanged(e, s) ==> e.dir && (e.empty ==> s->Dir_0 == 0),
        forall|s: Standing| s is Dir && e.dir && !e.empty ==> #[trigger] unchanged(e, s),
        forall|s: Standing| s is Dir && e.dir && s->Dir_0 == 0 ==> #[trigger] unchanged(e, s),
{
}

/// The paths of a request are those of its items, each in its turn, up to the limit.
pub proof fn law_asked_paths(items: Seq<JsonV>, n: int, i: int)
    requires
        0 <= i < n <= items.len() <= 500,
        text_member(items[i], "path"@) is Some,
    ensures
        asked_paths(items, n).contains(text_member(items[i], "path"@)->0),
        asked_paths(items, n).len() <= n,
    decreases n,
{
    let x = text_member(items[i], "path"@)->0;
    let now = asked_paths(items, n);
    let before = asked_paths(items, n - 1);
    lemma_asked_len(items, n);
    lemma_asked_len(items, n - 1);
    if i == n - 1 {
        assert(now[before.len() as int] == x);
    } else {
        law_asked_paths(items, n - 1, i);
        let k = choose|k: int| 0 <= k < before.len() && before[k] == x;
        assert(now[k] == x);
    }
}

proof fn lemma_asked_len(items: Seq<JsonV>, n: int)
    requires
        0 <= n <= items.len(),
    ensures
        asked_paths(items, n).len() <= n,
    decreases n,
{
    if n > 0 {
        lemma_asked_len(items, n - 1);
    }
}

proof fn lemma_all_found(paths: Seq<Seq<char>>, list: Seq<SnapV>, cwd: Option<Seq<char>>, n: int)
    requires
        0 <= n <= paths.len(),
    ensures
        all_found(paths, list, cwd, n) is Some <==> forall|k: int|
            0 <= k < n ==> found_under(
                list,
                crate::commands::finder::key_of(#[trigger] paths[k], cwd),
            ) is Some,
        all_found(paths, list, cwd, n) matches Some(t) ==> t.len() == n && forall|k: int|
            0 <= k < n ==> found_under(list, crate::commands::finder::key_of(paths[k], cwd)) == Some(
                #[trigger] t[k],
            ),
    decreases n,
{
    if n > 0 {
        lemma_all_found(paths, list, cwd, n - 1);
        if forall|k: int|
            0 <= k < n ==> found_under(
                list,
                crate::commands::finder::key_of(#[trigger] paths[k], cwd),
            ) is Some {
            assert(found_under(list, crate::commands::finder::key_of(paths[n - 1], cwd)) is Some);
        }
    }
}

/// What is deleted for a request is what was found under each of its paths, all of them, in
/// their order; nothing where one was not found.
pub proof fn law_targets(items: Seq<JsonV>, list: Seq<SnapV>, cwd: Option<Seq<char>>)
    ensures
        ({
            let paths = asked_paths(items, items.len() as int);
            &&& targets_of(items, list, cwd) is Ok <==> paths.len() > 0 && forall|k: int|
                0 <= k < paths.len() ==> found_under(
                    list,
                    crate::commands::finder::key_of(#[trigger] paths[k], cwd),
                ) is Some
            &&& targets_of(items, list, cwd) matches Ok(t) ==> t.len() == paths.len() && forall|
                k: int,
            |
                0 <= k < paths.len() ==> found_under(
                    list,
                    crate::commands::finder::key_of(paths[k], cwd),
                ) == Some(#[trigger] t[k])
        }),
{
    let paths = asked_paths(items, items.len() as int);
    lemma_all_found(paths, list, cwd, paths.len() as int);
}

/// The first entry that must not be deleted is found where there is one.
pub proof fn law_guarded(list: Seq<SnapV>, longs: Seq<Option<String>>, r: Roots, i: int, k: int)
    requires
        0 <= i <= k < list.len(),
        protected_norm(normal_path(crate::deletable::long_path(list[k].path, longs[k])), r),
    ensures
        i <= guarded_at(list, longs, r, i) <= k,
    decreases k - i,
{
    if i < k && !guarded(list[i], longs[i], r) {
        law_guarded(list, longs, r, i + 1, k);
    }
}

/// The deletions that went well.
pub open spec fn well(list: Seq<JsonV>) -> spec_fn(int) -> bool {
    |i: int| text_member(list[i], "status"@) == Some("ok"@)
}

/// The deletions that did not.
pub open spec fn not_well(list: Seq<JsonV>) -> spec_fn(int) -> bool {
    |i: int| text_member(list[i], "status"@) != Some("ok"@)
}

/// Those that went well, to the recycle bin.
pub open spec fn binned(list: Seq<JsonV>) -> spec_fn(int) -> bool {
    |i: int| text_member(list[i], "status"@) == Some("ok"@) && text_member(list[i], "mode"@) == Some(
        "recycled"@,
    )
}

/// What a deletion has freed.
pub open spec fn freed_in(list: Seq<JsonV>) -> spec_fn(int) -> int {
    |i: int| size_of_value(member(list[i], "freed"@)) as int
}

/// The sums over deletions count each as done or as failed, and add up what each has freed.
pub proof fn law_totals(list: Seq<JsonV>, n: int)
    requires
        0 <= n <= list.len(),
    ensures
        ({
            let t = totals(list, n);
            &&& t.success == count(n, well(list))
            &&& t.failed == count(n, not_well(list))
            &&& t.recycled == count(n, binned(list))
            &&& t.success + t.failed == n
            &&& (forall|k: int| 0 <= k <= n ==> 0 <= #[trigger] added(k, freed_in(list)) <= u64::MAX)
                ==> t.freed == added(n, freed_in(list))
        }),
    decreases n,
{
    if n > 0 {
        law_totals(list, n - 1);
        let f = freed_in(list);
        if forall|k: int| 0 <= k <= n ==> 0 <= #[trigger] added(k, f) <= u64::MAX {
            assert(0 <= added(n, f) <= u64::MAX);
        }
    }
}

/// What is told of deletions: the sums, what became of each, and as skipped what has no result.
pub proof fn law_deletions_are_told(list: Seq<JsonV>, total: nat, manifest: Seq<char>)
    requires
        list.len() <= total,
    ensures
        ({
            let n = list.len() as int;
            let d = member(delete_reply(list, total, manifest), "data"@)->0;
            &&& bool_member(delete_reply(list, total, manifest), "success"@) == Some(true)
            &&& member(d, "success"@) == Some(JsonV::Num(dec(count(n, well(list)))))
            &&& member(d, "failed"@) == Some(JsonV::Num(dec(count(n, not_well(list)))))
            &&& member(d, "recycled"@) == Some(JsonV::Num(dec(count(n, binned(list)))))
            &&& member(d, "skipped"@) == Some(JsonV::Num(dec((total - n) as nat)))
            &&& (forall|k: int| 0 <= k <= n ==> 0 <= #[trigger] added(k, freed_in(list)) <= u64::MAX)
                ==> member(d, "totalFreed"@) == Some(
                JsonV::Num(dec(added(n, freed_in(list)) as nat)),
            )
            &&& array_member(d, "details"@) == Some(list)
            &&& text_member(d, "manifestPath"@) == Some(manifest)
        }),
{
    lemma_batch_keys();
    law_totals(list, list.len() as int);
    let r = delete_reply(list, total, manifest);
    lemma_member_at(r->Obj_0, 0);
    lemma_member_at(r->Obj_0, 1);
    let d = r->Obj_0[1].1->Obj_0;
    lemma_member_at(d, 0);
    lemma_member_at(d, 1);
    lemma_member_at(d, 2);
    lemma_member_at(d, 3);
    lemma_member_at(d, 4);
    lemma_member_at(d, 5);
    lemma_member_at(d, 6);
}

/// Exactly what was deleted is written down, with its path, its kind, its size and whether it
/// went to the recycle bin.
pub proof fn law_deletions_are_put_down(list: Seq<JsonV>, n: int, i: int)
    requires
        0 <= i < n <= list.len(),
    ensures
        deleted_entries(list, n).len() == count(n, well(list)),
        text_member(list[i], "status"@) == Some("ok"@) ==> deleted_entries(list, n).contains(
            deleted_entry(list[i]),
        ),
        bool_member(deleted_entry(list[i]), "recycled"@) == Some(
            text_member(list[i], "mode"@) == Some("recycled"@),
        ),
        text_member(list[i], "path"@) matches Some(p) ==> text_member(
            deleted_entry(list[i]),
            "path"@,
        ) == Some(replaced(p, '/', '\\')),
        text_member(list[i], "kind"@) == Some("dir"@) ==> text_member(
            deleted_entry(list[i]),
            "kind"@,
        ) == Some("dir"@),
        text_member(list[i], "kind"@) != Some("dir"@) ==> text_member(
            deleted_entry(list[i]),
            "kind"@,
        ) == Some("file"@),
        member(deleted_entry(list[i]), "size"@) == Some(
            JsonV::Num(dec(size_of_value(member(list[i], "freed"@)) as nat)),
        ),
    decreases n,
{
    let now = deleted_entries(list, n);
    let before = deleted_entries(list, n - 1);
    lemma_file_keys();
    let m = deleted_entry(list[i])->Obj_0;
    lemma_member_at(m, 0);
    lemma_member_at(m, 1);
    lemma_member_at(m, 2);
    lemma_member_at(m, 3);
    if n > 1 {
        law_deletions_are_put_down(
            list,
            n - 1,
            if i < n - 1 {
                i
            } else {
                0
            },
        );
    } else {
        assert(count(0, well(list)) == 0);
    }
    if went_well(list[i]) {
        if i == n - 1 {
            assert(now[before.len() as int] == deleted_entry(list[i]));
        } else {
            let k = choose|k: int| 0 <= k < before.len() && before[k] == deleted_entry(list[i]);
            assert(now[k] == deleted_entry(list[i]));
        }
    }
}

/// Among reported items exactly the results of deletions are counted as such.
pub proof fn law_results(items: Seq<JsonV>, n: int, i: int)
    requires
        0 <= i < n <= items.len(),
        text_member(items[i], "type"@) == Some("delresult"@),
    ensures
        results_in(items, n).contains(items[i]),
    decreases n,
{
    let now = results_in(items, n);
    let before = results_in(items, n - 1);
    if i == n - 1 {
        assert(now[before.len() as int] == items[i]);
    } else {
        law_results(items, n - 1, i);
        let k = choose|k: int| 0 <= k < before.len() && before[k] == items[i];
        assert(now[k] == items[i]);
    }
}

/// Of what is kept of searches the older half is dropped beyond the limit, and else nothing.
pub proof fn law_nothing_is_dropped_early(
    list: Seq<SnapV>,
    items: Seq<JsonV>,
    ts: u64,
    cwd: Option<Seq<char>>,
)
    ensures
        with_items(list, items, ts, cwd, items.len() as int).len() <= 500_000 ==> stored(
            list,
            items,
            ts,
            cwd,
        ) == with_items(list, items, ts, cwd, items.len() as int),
{
}

/// What is not in the older half stays.
pub proof fn law_younger_stays(list: Seq<SnapV>, n: int, i: int)
    requires
        0 <= i < n <= list.len(),
        !in_older_half(list, i),
    ensures
        younger(list, n).contains(list[i]),
    decreases n,
{
    let now = younger(list, n);
    let before = younger(list, n - 1);
    if i == n - 1 {
        assert(now[before.len() as int] == list[i]);
    } else {
        law_younger_stays(list, n - 1, i);
        let k = choose|k: int| 0 <= k < before.len() && before[k] == list[i];
        assert(now[k] == list[i]);
    }
}

} // verus!

//! The decisions of the download loop: which file to start when, and how
//! the progress of each kind of file is shown.
use vstd::prelude::*;
use crate::models::FileEntry;
use crate::text::{decimal, decimal_string, lemma_decimal_len_monotonic, has_prefix, right_align, right_aligned, str_eq};

verus! {

/// The kinds of file whose downloads are counted separately.
#[derive(Clone, Copy, Debug, PartialEq, Eq, Structural)]
pub enum FileCategory {
    Page,
    Style,
    Image,
    Other,
}

/// The kind of a file with the given media type: XHTML and HTML documents are
/// pages, CSS is style, `image/...` is an image.
pub open spec fn category_of(media_type: Seq<char>) -> FileCategory {
    if media_type == "application/xhtml+xml"@ || media_type == "text/html"@ {
        FileCategory::Page
    } else if media_type == "text/css"@ {
        FileCategory::Style
    } else if "image/"@.is_prefix_of(media_type) {
        FileCategory::Image
    } else {
        FileCategory::Other
    }
}

/// Helper to categorize a file.
pub fn category(entry: &FileEntry) -> (r: FileCategory)
    ensures
        r == category_of(entry.media_type@),
{
    let mt = entry.media_type.as_str();
    if str_eq(mt, "application/xhtml+xml") || str_eq(mt, "text/html") {
        FileCategory::Page
    } else if str_eq(mt, "text/css") {
        FileCategory::Style
    } else if has_prefix(mt, "image/") {
        FileCategory::Image
    } else {
        FileCategory::Other
    }
}

/// The prefix of a progress bar: the position and the length, right-aligned
/// to the width of the length (taken as 0 where unknown), around a slash.
pub open spec fn progress_prefix_text(position: nat, length: nat) -> Seq<char> {
    let width = decimal(length).len();
    right_aligned(decimal(position), width) + "/"@ + right_aligned(decimal(length), width)
}

/// Formats the prefix of a progress bar, as `format!("{:>w$}/{:>w$}", position,
/// length, w = length.to_string().len())` does, an unknown length counting as 0.
pub fn progress_prefix(position: u64, length: Option<u64>) -> (r: String)
    ensures
        r@ == progress_prefix_text(
            position as nat,
            match length {
                Some(l) => l as nat,
                None => 0,
            },
        ),
{
    let total = match length {
        Some(l) => l,
        None => 0,
    };
    let total_text = decimal_string(total);
    let width = total_text.as_str().unicode_len();
    let position_text = decimal_string(position);
    let mut r = right_align(position_text.as_str(), width);
    r.append("/");
    let right = right_align(total_text.as_str(), width);
    r.append(right.as_str());
    r
}

/// A progress counter keeps its width as it counts up: while the position
/// is at most the length, the prefix is the width of the length twice, and
/// the slash.
pub proof fn lemma_progress_prefix_width(position: nat, length: nat)
    requires
        position <= length,
    ensures
        progress_prefix_text(position, length).len() == 2 * decimal(length).len() + 1,
{
    lemma_decimal_len_monotonic(position, length);
    reveal_strlit("/");
}

/// The state of the download loop, as numbers.
pub struct QueueModel {
    /// How many files there are.
    pub total: nat,
    /// How many downloads may run at once.
    pub max_concurrent: nat,
    /// How many downloads have been started: files `0 .. started`.
    pub started: nat,
    /// How many started downloads have not finished yet.
    pub in_flight: nat,
}

/// What holds of the download loop at every step: no more downloads run than
/// allowed; while files are left to start, as many run as allowed.
pub open spec fn queue_invariant(q: QueueModel) -> bool {
    &&& q.started <= q.total
    &&& q.in_flight <= q.started
    &&& q.in_flight <= q.max_concurrent
    &&& q.started < q.total ==> q.in_flight == q.max_concurrent
}

/// The state of the download loop: files are started in the order of the
/// list, never more than `max_concurrent` at once, and each finished download
/// frees a slot for the next file.
pub struct DownloadQueue {
    total: usize,
    max_concurrent: usize,
    next: usize,
    in_flight: usize,
}

impl View for DownloadQueue {
    type V = QueueModel;

    closed spec fn view(&self) -> QueueModel {
        QueueModel {
            total: self.total as nat,
            max_concurrent: self.max_concurrent as nat,
            started: self.next as nat,
            in_flight: self.in_flight as nat,
        }
    }
}

impl DownloadQueue {
    #[verifier::type_invariant]
    spec fn well_formed(self) -> bool {
        queue_invariant(self@)
    }

    /// Starts the loop over `total` files: the first `max_concurrent` of
    /// them (or all, where there are fewer) are to be started at once.
    pub fn start(total: usize, max_concurrent: usize) -> (r: (DownloadQueue, Vec<usize>))
        ensures
            r.0@.total == total,
            r.0@.max_concurrent == max_concurrent,
            r.0@.started == r.1@.len(),
            r.0@.in_flight == r.1@.len(),
            r.1@.len() == if total < max_concurrent { total } else { max_concurrent },
            forall|j: int| 0 <= j < r.1@.len() ==> r.1@[j] == j,
            queue_invariant(r.0@),
    {
        let mut first: Vec<usize> = Vec::new();
        let mut idx: usize = 0;
        // Start downloading the first n files.
        while idx < max_concurrent && idx < total
            invariant
                idx <= total,
                idx <= max_concurrent,
                first@.len() == idx,
                forall|j: int| 0 <= j < idx ==> first@[j] == j,
            decreases total - idx,
        {
            first.push(idx);
            idx += 1;
        }
        (DownloadQueue { total, max_concurrent, next: idx, in_flight: idx }, first)
    }

    /// How many downloads are running.
    pub fn in_flight(&self) -> (r: usize)
        ensures
            r == self@.in_flight,
            queue_invariant(self@),
    {
        proof {
            use_type_invariant(self);
        }
        self.in_flight
    }

    /// A running download has finished well: gives the file to start in its
    /// slot, the next one in the list, if any is left.
    pub fn finished(&mut self) -> (r: Option<usize>)
        requires
            old(self)@.in_flight > 0,
        ensures
            final(self)@.total == old(self)@.total,
            final(self)@.max_concurrent == old(self)@.max_concurrent,
            queue_invariant(final(self)@),
            old(self)@.started < old(self)@.total ==> {
                &&& r == Some(old(self)@.started as usize)
                &&& final(self)@.started == old(self)@.started + 1
                &&& final(self)@.in_flight == old(self)@.in_flight
            },
            old(self)@.started == old(self)@.total ==> {
                &&& r is None
                &&& final(self)@.started == old(self)@.started
                &&& final(self)@.in_flight == old(self)@.in_flight - 1
            },
    {
        proof {
            use_type_invariant(&*self);
        }
        // Refill the slot (if there are any remaining).
        if self.next < self.total {
            let idx = self.next;
            self.next = self.next + 1;
            Some(idx)
        } else {
            self.in_flight = self.in_flight - 1;
            None
        }
    }
}

/// Once no download runs, every file has been started, where at least one
/// download may run at a time.
pub proof fn lemma_idle_queue_has_started_all(q: QueueModel)
    requires
        queue_invariant(q),
        q.in_flight == 0,
        q.max_concurrent > 0,
    ensures
        q.started == q.total,
{
}

/// The loop ends: each finished download either starts a new file or lowers
/// the number of running downloads, so the files left to start plus the
/// downloads running decrease.
pub proof fn lemma_finished_makes_progress(before: QueueModel, after: QueueModel, next: Option<usize>)
    requires
        queue_invariant(before),
        before.in_flight > 0,
        after.total == before.total,
        before.started < before.total ==> next == Some(before.started as usize) && after.started
            == before.started + 1 && after.in_flight == before.in_flight,
        before.started == before.total ==> next is None && after.started == before.started
            && after.in_flight == before.in_flight - 1,
    ensures
        (after.total - after.started) + after.in_flight < (before.total - before.started)
            + before.in_flight,
{
}

} // verus!

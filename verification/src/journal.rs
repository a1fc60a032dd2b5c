//! What a journal file stands for once its content was read: no tasks, the
//! decoded tasks, or a corrupt store.

use vstd::prelude::*;
use crate::error::StoreError;
use crate::task::Task;

verus! {

/// Whether a byte is white space between the values of a journal: a space,
/// a tab, a line feed or a carriage return.
pub open spec fn is_space(byte: u8) -> bool {
    byte == 0x20 || byte == 0x09 || byte == 0x0a || byte == 0x0d
}

/// Whether the content holds nothing but white space. A journal that was
/// just created, or emptied, is blank.
pub open spec fn blank(content: Seq<u8>) -> bool {
    forall|i: int| 0 <= i < content.len() ==> is_space(#[trigger] content[i])
}

/// The collection that a journal stands for. A journal that does not exist
/// or is blank stands for no tasks. Any other journal stands for what was
/// decoded from it, and is corrupt if nothing could be.
pub open spec fn loaded(content: Option<Seq<u8>>, decoded: Option<Seq<Task>>) -> Result<
    Seq<Task>,
    StoreError,
> {
    match content {
        None => Ok(Seq::empty()),
        Some(bytes) => if blank(bytes) {
            Ok(Seq::empty())
        } else {
            match decoded {
                Some(tasks) => Ok(tasks),
                None => Err(StoreError::CorruptStore),
            }
        },
    }
}

/// Tells whether the content holds nothing but white space.
pub fn is_blank(content: &[u8]) -> (empty: bool)
    ensures
        empty == blank(content@),
{
    let mut i: usize = 0;
    while i < content.len()
        invariant
            i <= content@.len(),
            forall|j: int| 0 <= j < i ==> is_space(#[trigger] content@[j]),
        decreases content@.len() - i,
    {
        let byte: u8 = content[i];
        if !(byte == 0x20 || byte == 0x09 || byte == 0x0a || byte == 0x0d) {
            assert(!is_space(content@[i as int]));
            return false;
        }
        i += 1;
    }
    true
}

/// Settles what collection a journal stands for. `content` is what the
/// journal file holds, `None` if there is no such file; `decoded` is the task
/// collection that was read out of that content, `None` if it could not be
/// read as one.
pub fn load_tasks(content: Option<&[u8]>, decoded: Option<Vec<Task>>) -> (result: Result<
    Vec<Task>,
    StoreError,
>)
    ensures
        match loaded(
            match content {
                Some(bytes) => Some(bytes@),
                None => None,
            },
            match decoded {
                Some(tasks) => Some(tasks@),
                None => None,
            },
        ) {
            Ok(tasks) => result is Ok && result->Ok_0@ == tasks,
            Err(error) => result == Err::<Vec<Task>, StoreError>(error),
        },
{
    match content {
        None => Ok(Vec::new()),
        Some(bytes) => {
            if is_blank(bytes) {
                Ok(Vec::new())
            } else {
                match decoded {
                    Some(tasks) => Ok(tasks),
                    None => Err(StoreError::CorruptStore),
                }
            }
        },
    }
}

} // verus!

//! Sending packets back into the network stack.
use vstd::prelude::*;
use crate::status::nt_success;

verus! {

/// What belongs to a packet on its way into the stack: the memory descriptor of its buffer and the
/// request that waits for it. 0 stands for none.
#[derive(Clone, Copy, Debug, PartialEq, Eq, Structural)]
pub struct UserInjectionCompletionContext {
    pub mdl: u64,
    pub request: u64,
}

/// What is to be done when a packet has gone into the stack, or could not.
#[derive(Clone, Copy, Debug, PartialEq, Eq, Structural)]
pub enum CompletionStep {
    FreeMdl(u64),
    /// Complete the request with success.
    CompleteRequest(u64),
    FreeContext,
    FreeNetBufferList(u64),
}

/// The steps that release a packet: its memory descriptor and its request, then what held them,
/// then its list.
pub open spec fn completion(
    context: Option<UserInjectionCompletionContext>,
    net_buffer_list: u64,
) -> Seq<CompletionStep> {
    (match context {
        Some(c) => {
            (if c.mdl != 0 {
                seq![CompletionStep::FreeMdl(c.mdl)]
            } else {
                seq![]
            }) + (if c.request != 0 {
                seq![CompletionStep::CompleteRequest(c.request)]
            } else {
                seq![]
            }) + seq![CompletionStep::FreeContext]
        },
        None => seq![],
    }) + (if net_buffer_list != 0 {
        seq![CompletionStep::FreeNetBufferList(net_buffer_list)]
    } else {
        seq![]
    })
}

/// The steps that release a packet.
pub fn injection_completion_fn(
    context: Option<UserInjectionCompletionContext>,
    net_buffer_list: u64,
) -> (steps: Vec<CompletionStep>)
    ensures
        steps@ == completion(context, net_buffer_list),
{
    let mut steps: Vec<CompletionStep> = Vec::new();
    match context {
        Some(c) => {
            if c.mdl != 0 {
                steps.push(CompletionStep::FreeMdl(c.mdl));
            }
            if c.request != 0 {
                steps.push(CompletionStep::CompleteRequest(c.request));
            }
            steps.push(CompletionStep::FreeContext);
        },
        None => {},
    }
    if net_buffer_list != 0 {
        steps.push(CompletionStep::FreeNetBufferList(net_buffer_list));
    }
    assert(steps@ =~= completion(context, net_buffer_list));
    steps
}

/// The list that allocating one gave, if that succeeded.
pub fn allocate_nbl_from_mdl(status: i32, nbl: u64) -> (r: Option<u64>)
    ensures
        r == (if status >= 0 {
            Some(nbl)
        } else {
            None
        }),
{
    if nt_success(status) {
        Some(nbl)
    } else {
        None
    }
}

/// Every packet's request is completed at most once, and exactly once if there is one.
pub proof fn law_request_completed_once(
    context: UserInjectionCompletionContext,
    net_buffer_list: u64,
)
    requires
        context.request != 0,
    ensures
        exists|i: int|
            0 <= i < completion(Some(context), net_buffer_list).len() && #[trigger] completion(
                Some(context),
                net_buffer_list,
            )[i] == CompletionStep::CompleteRequest(context.request),
        forall|i: int, j: int|
            0 <= i < completion(Some(context), net_buffer_list).len() && 0 <= j < completion(
                Some(context),
                net_buffer_list,
            ).len() && #[trigger] completion(Some(context), net_buffer_list)[i] is CompleteRequest
                && #[trigger] completion(Some(context), net_buffer_list)[j] is CompleteRequest ==> i
                == j,
{
    let steps = completion(Some(context), net_buffer_list);
    let at: int = if context.mdl != 0 {
        1
    } else {
        0
    };
    assert(steps[at] == CompletionStep::CompleteRequest(context.request));
}

} // verus!

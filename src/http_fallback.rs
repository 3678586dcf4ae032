//! Direct HTTP delivery: the answer to a request for a file's bytes.

use vstd::prelude::*;
use crate::errors::{AppError, status_of};
use crate::models::MediaType;
use crate::range::{RangePlan, plan_for, resolve, view_header};
use crate::text::{decimal, push_decimal, string_of};

verus! {

/// An HTTP answer: 200 with the whole file, 206 with part of it, or 416
/// when the requested range cannot be served.
pub struct HttpReply {
    pub status: u16,
    pub body: Vec<u8>,
    pub content_type: String,
    pub content_range: Option<String>,
}

/// The content type under which a kind of media is sent.
pub open spec fn content_type_of(kind: MediaType) -> Seq<char> {
    match kind {
        MediaType::Video => seq!['v', 'i', 'd', 'e', 'o', '/', 'm', 'p', '4'],
        MediaType::Audio => seq!['a', 'u', 'd', 'i', 'o', '/', 'm', 'p', 'e', 'g'],
        MediaType::Image => seq![
            'a', 'p', 'p', 'l', 'i', 'c', 'a', 't', 'i', 'o', 'n', '/', 'o', 'c', 't', 'e', 't',
            '-', 's', 't', 'r', 'e', 'a', 'm',
        ],
    }
}

/// The last byte sent for a satisfiable plan: its end, or the file's last
/// byte where the end lies past it.
pub open spec fn last_sent(plan: RangePlan) -> u64 {
    if plan.end >= plan.total_size {
        (plan.total_size - 1) as u64
    } else {
        plan.end
    }
}

/// The `Content-Range` value of a plan: `bytes A-B/T`, or `bytes */T` when
/// it is unsatisfiable.
pub open spec fn content_range_of(plan: RangePlan) -> Seq<char> {
    if plan.satisfiable {
        seq!['b', 'y', 't', 'e', 's', ' '] + decimal(plan.start as nat) + seq!['-'] + decimal(
            last_sent(plan) as nat,
        ) + seq!['/'] + decimal(plan.total_size as nat)
    } else {
        seq!['b', 'y', 't', 'e', 's', ' ', '*', '/'] + decimal(plan.total_size as nat)
    }
}

pub struct HttpStreamer;

impl HttpStreamer {
    /// The content type under which a kind of media is sent.
    pub fn content_type(kind: MediaType) -> (r: String)
        ensures
            r@ == content_type_of(kind),
    {
        match kind {
            MediaType::Video => string_of(&['v', 'i', 'd', 'e', 'o', '/', 'm', 'p', '4']),
            MediaType::Audio => string_of(&['a', 'u', 'd', 'i', 'o', '/', 'm', 'p', 'e', 'g']),
            MediaType::Image => string_of(
                &[
                    'a', 'p', 'p', 'l', 'i', 'c', 'a', 't', 'i', 'o', 'n', '/', 'o', 'c', 't', 'e',
                    't', '-', 's', 't', 'r', 'e', 'a', 'm',
                ],
            ),
        }
    }

    /// The `Content-Range` value of a plan (see `content_range_of`).
    pub fn content_range(plan: &RangePlan) -> (r: String)
        requires
            plan.satisfiable ==> plan.total_size > 0,
        ensures
            r@ == content_range_of(*plan),
    {
        let mut cs: Vec<char> = Vec::new();
        cs.push('b');
        cs.push('y');
        cs.push('t');
        cs.push('e');
        cs.push('s');
        cs.push(' ');
        if plan.satisfiable {
            push_decimal(&mut cs, plan.start);
            cs.push('-');
            let last = if plan.end >= plan.total_size {
                plan.total_size - 1
            } else {
                plan.end
            };
            push_decimal(&mut cs, last);
        } else {
            cs.push('*');
        }
        cs.push('/');
        push_decimal(&mut cs, plan.total_size);
        assert(cs@ =~= content_range_of(*plan));
        string_of(cs.as_slice())
    }

    /// The bytes `contents[start..=last]`, where `last` is the plan's last
    /// byte sent.
    pub fn slice_for(contents: &Vec<u8>, plan: &RangePlan) -> (r: Vec<u8>)
        requires
            plan.satisfiable,
            plan.total_size == contents@.len(),
            plan.start < plan.total_size,
            plan.start <= plan.end,
        ensures
            r@ == contents@.subrange(plan.start as int, last_sent(*plan) + 1),
    {
        let last = if plan.end >= plan.total_size {
            plan.total_size - 1
        } else {
            plan.end
        };
        let n = contents.len();
        assert(last < n && plan.start < n);
        let last = last as usize;
        let mut r: Vec<u8> = Vec::new();
        let mut i: usize = plan.start as usize;
        while i <= last
            invariant
                plan.start <= i <= last + 1,
                last < n,
                n == contents@.len(),
                last == last_sent(*plan),
                r@ == contents@.subrange(plan.start as int, i as int),
            decreases last + 1 - i,
        {
            r.push(contents[i]);
            assert(contents@.subrange(plan.start as int, i + 1) == contents@.subrange(
                plan.start as int,
                i as int,
            ).push(contents@[i as int]));
            i = i + 1;
        }
        r
    }

    /// The answer to a request for a file of kind `kind` whose bytes are
    /// `contents`, with an optional `Range` header: without one, 200 and
    /// the whole file; with a satisfiable one, 206, the bytes of the range
    /// and their `Content-Range`; with an unsatisfiable one, 416, no bytes
    /// and `bytes */T`; with a malformed one, the status of a validation
    /// error (400) and no bytes.
    pub fn stream_file(contents: &Vec<u8>, kind: MediaType, range_header: Option<&str>) -> (r:
        HttpReply)
        requires
            contents@.len() <= u64::MAX,
        ensures
            r.content_type@ == content_type_of(kind),
            match plan_for(contents@.len() as u64, view_header(range_header)) {
                Err(_) => {
                    &&& forall|m: String|
                        #[trigger] status_of(AppError::ValidationError(m)) == r.status
                    &&& r.body@.len() == 0
                    &&& r.content_range is None
                },
                Ok(plan) => match range_header {
                    None => r.status == 200 && r.body@ == contents@ && r.content_range is None,
                    Some(_) => if plan.satisfiable {
                        &&& r.status == 206
                        &&& r.body@ == contents@.subrange(plan.start as int, last_sent(plan) + 1)
                        &&& r.content_range matches Some(c) && c@ == content_range_of(plan)
                    } else {
                        &&& r.status == 416
                        &&& r.body@.len() == 0
                        &&& r.content_range matches Some(c) && c@ == content_range_of(plan)
                    },
                },
            },
    {
        let content_type = Self::content_type(kind);
        let size = contents.len() as u64;
        let plan = match resolve(size, range_header) {
            Err(_) => {
                return HttpReply {
                    status: 400,
                    body: Vec::new(),
                    content_type,
                    content_range: None,
                };
            },
            Ok(plan) => plan,
        };
        match range_header {
            None => HttpReply {
                status: 200,
                body: contents.clone(),
                content_type,
                content_range: None,
            },
            Some(_) => {
                if plan.satisfiable {
                    let body = Self::slice_for(contents, &plan);
                    HttpReply {
                        status: 206,
                        body,
                        content_type,
                        content_range: Some(Self::content_range(&plan)),
                    }
                } else {
                    HttpReply {
                        status: 416,
                        body: Vec::new(),
                        content_type,
                        content_range: Some(Self::content_range(&plan)),
                    }
                }
            },
        }
    }
}

} // verus!

//! The layout planner: where the next record of the log goes, and what has to be written
//! before it.

use vstd::prelude::*;

use crate::error::{ErrorView, Result, StorageErrorKind};
use crate::memory::{asked, Memory};
use crate::vlog::geometry::{
    capacity_error, capacity_view, decode_error, decode_view, invalid_vlog_error,
    invalid_vlog_view, lemma_advance_in_page, lemma_advance_to_page_end, lemma_first_page,
    lemma_page_end, lemma_page_number, position_before, record_fits, record_may_end,
    remaining_in_page, validate_record_start, VLogGeometry, VLogPosition,
    FIRST_PAGE_RECORD_AREA_START, OTHER_PAGE_RECORD_AREA_OFFSET, PAGE_END_MIN_SIZE,
};
use crate::vlog::header::PAGE_HEADER_ENCODED_LEN;

verus! {

/// What has to be written before a record.
#[derive(Clone, Copy, Debug, PartialEq, Eq, Structural)]
pub enum LayoutPrelude {
    PageHeader { position: VLogPosition, page_no: u32 },
    FileHeader { position: VLogPosition },
    PageEnd { position: VLogPosition, encoded_len: u32 },
}

/// Where a record goes.
#[derive(Clone, Debug, PartialEq, Eq)]
pub struct RecordPlacement {
    pub preludes: Vec<LayoutPrelude>,
    pub record_start: VLogPosition,
    pub encoded_len: u32,
}

/// A placement as a mathematical value, with the position behind the record.
#[verifier::ext_equal]
pub struct PlanView {
    pub preludes: Seq<LayoutPrelude>,
    pub record_start: VLogPosition,
    pub encoded_len: u32,
    pub next: VLogPosition,
}

#[derive(Clone, Copy, Debug, PartialEq, Eq, Structural)]
pub struct LayoutPlanner {
    geometry: VLogGeometry,
    position: VLogPosition,
}

/// A position from which the log can go on: inside a file, and either at a page boundary or
/// behind the headers of its page.
pub open spec fn can_go_on(geometry: VLogGeometry, position: VLogPosition) -> bool {
    &&& position.file_id <= geometry.max_file_id
    &&& position.offset <= geometry.max_file_size
    &&& position.offset % geometry.page_size == 0 || position.offset % geometry.page_size >= (
    if position.offset < geometry.page_size {
        FIRST_PAGE_RECORD_AREA_START
    } else {
        OTHER_PAGE_RECORD_AREA_OFFSET
    })
}

/// The headers that have to be written at a position before a record, and the position behind
/// them: a page header at the start of a page, and a file header behind that of the first
/// page. `None` where the log is full.
pub open spec fn record_area(geometry: VLogGeometry, position: VLogPosition) -> Option<
    (Seq<LayoutPrelude>, VLogPosition),
> {
    if position.offset == geometry.max_file_size && position.file_id >= geometry.max_file_id {
        None
    } else {
        let at = if position.offset == geometry.max_file_size {
            VLogPosition { file_id: (position.file_id + 1) as u32, offset: 0 }
        } else {
            position
        };
        if at.offset == 0 {
            Some(
                (
                    seq![
                        LayoutPrelude::PageHeader { position: at, page_no: 0 },
                        LayoutPrelude::FileHeader {
                            position: VLogPosition {
                                file_id: at.file_id,
                                offset: PAGE_HEADER_ENCODED_LEN as u64,
                            },
                        },
                    ],
                    VLogPosition { file_id: at.file_id, offset: FIRST_PAGE_RECORD_AREA_START },
                ),
            )
        } else if at.offset % geometry.page_size == 0 {
            Some(
                (
                    seq![
                        LayoutPrelude::PageHeader {
                            position: at,
                            page_no: (at.offset / geometry.page_size) as u32,
                        },
                    ],
                    VLogPosition {
                        file_id: at.file_id,
                        offset: (at.offset + OTHER_PAGE_RECORD_AREA_OFFSET) as u64,
                    },
                ),
            )
        } else {
            Some((Seq::empty(), at))
        }
    }
}

/// A record leaves a gap in a page that nothing can fill: it is too long for the page, or the
/// rest is too short for the record that closes a page.
pub open spec fn leaves_gap(remaining: int, encoded_len: u32) -> bool {
    encoded_len > remaining || 0 < remaining - encoded_len < PAGE_END_MIN_SIZE
}

/// The placement of a record in the page that a position is in, behind what was already
/// planned.
pub open spec fn place_in_page(
    geometry: VLogGeometry,
    preludes: Seq<LayoutPrelude>,
    start: VLogPosition,
    encoded_len: u32,
) -> std::result::Result<PlanView, ErrorView> {
    let remaining = geometry.remaining(start.offset as int);
    if encoded_len > remaining {
        Err(invalid_vlog_view(StorageErrorKind::InvalidArgument))
    } else if 0 < remaining - encoded_len < PAGE_END_MIN_SIZE {
        Err(decode_view(StorageErrorKind::InvalidLayout))
    } else {
        Ok(
            PlanView {
                preludes,
                record_start: start,
                encoded_len,
                next: VLogPosition {
                    file_id: start.file_id,
                    offset: (start.offset + encoded_len) as u64,
                },
            },
        )
    }
}

/// The placement of a record of some length behind a position. Where the record would leave a
/// gap in its page, the page is closed and the record goes to the next page.
pub open spec fn planned(
    geometry: VLogGeometry,
    position: VLogPosition,
    encoded_len: u32,
) -> std::result::Result<PlanView, ErrorView> {
    if encoded_len < PAGE_END_MIN_SIZE || encoded_len > geometry.page_size {
        Err(invalid_vlog_view(StorageErrorKind::InvalidArgument))
    } else {
        match record_area(geometry, position) {
            None => Err(capacity_view()),
            Some((headers, start)) => {
                let remaining = geometry.remaining(start.offset as int);
                if !leaves_gap(remaining, encoded_len) {
                    place_in_page(geometry, headers, start, encoded_len)
                } else if remaining < PAGE_END_MIN_SIZE {
                    Err(decode_view(StorageErrorKind::InvalidLayout))
                } else {
                    let closed = headers.push(
                        LayoutPrelude::PageEnd { position: start, encoded_len: remaining as u32 },
                    );
                    let page_end = VLogPosition {
                        file_id: start.file_id,
                        offset: (start.offset + remaining) as u64,
                    };
                    match record_area(geometry, page_end) {
                        None => Err(capacity_view()),
                        Some((more, next_start)) => place_in_page(
                            geometry,
                            closed + more,
                            next_start,
                            encoded_len,
                        ),
                    }
                }
            },
        }
    }
}

/// What the planner hands out for a planned record.
pub open spec fn hands_out(placement: RecordPlacement, plan: PlanView) -> bool {
    &&& placement.preludes@ == plan.preludes
    &&& placement.record_start == plan.record_start
    &&& placement.encoded_len == plan.encoded_len
}

/// Headers leave room behind them in their page, and lead to a position where records start.
pub proof fn lemma_record_area(geometry: VLogGeometry, position: VLogPosition)
    requires
        geometry.valid(),
        can_go_on(geometry, position),
        record_area(geometry, position) is Some,
    ensures
        ({
            let (headers, start) = record_area(geometry, position)->0;
            &&& geometry.record_may_start(start)
            &&& headers.len() <= 2
            &&& start == position || position_before(position, start)
        }),
{
    let (headers, start) = record_area(geometry, position)->0;
    let at = if position.offset == geometry.max_file_size {
        VLogPosition { file_id: (position.file_id + 1) as u32, offset: 0 }
    } else {
        position
    };
    lemma_first_page(geometry, at.offset as int);
    if at.offset == 0 {
        lemma_first_page(geometry, FIRST_PAGE_RECORD_AREA_START as int);
        lemma_page_end(geometry, 0);
    } else if at.offset % geometry.page_size == 0 {
        lemma_page_end(geometry, at.offset as int);
        lemma_advance_in_page(geometry, at.offset as int, OTHER_PAGE_RECORD_AREA_OFFSET as int);
    }
}

/// What holds of every planned record: it stays inside one page, behind the headers; it leaves
/// no gap that could not be closed; and the log only grows.
pub proof fn law_planned_record_stays_in_page(
    geometry: VLogGeometry,
    position: VLogPosition,
    encoded_len: u32,
)
    requires
        geometry.valid(),
        can_go_on(geometry, position),
        planned(geometry, position, encoded_len) is Ok,
    ensures
        ({
            let plan = planned(geometry, position, encoded_len)->Ok_0;
            &&& record_fits(encoded_len as nat, plan.record_start, geometry)
            &&& record_may_end(plan.next, geometry)
            &&& can_go_on(geometry, plan.next)
            &&& position_before(position, plan.next)
            &&& plan.next.file_id == plan.record_start.file_id
            &&& plan.next.offset == plan.record_start.offset + encoded_len
            &&& plan.encoded_len == encoded_len
        }),
{
    let (headers, start) = record_area(geometry, position)->0;
    lemma_record_area(geometry, position);
    let remaining = geometry.remaining(start.offset as int);
    lemma_page_end(geometry, start.offset as int);
    if !leaves_gap(remaining, encoded_len) {
        lemma_after_record(geometry, start, encoded_len);
    } else {
        let page_end = VLogPosition {
            file_id: start.file_id,
            offset: (start.offset + remaining) as u64,
        };
        lemma_advance_to_page_end(geometry, start.offset as int);
        let (more, next_start) = record_area(geometry, page_end)->0;
        lemma_record_area(geometry, page_end);
        lemma_page_end(geometry, next_start.offset as int);
        lemma_after_record(geometry, next_start, encoded_len);
    }
}

/// The position behind a record that leaves no gap.
proof fn lemma_after_record(geometry: VLogGeometry, start: VLogPosition, encoded_len: u32)
    requires
        geometry.valid(),
        geometry.record_may_start(start),
        encoded_len >= PAGE_END_MIN_SIZE,
        !leaves_gap(geometry.remaining(start.offset as int), encoded_len),
    ensures
        ({
            let next = VLogPosition {
                file_id: start.file_id,
                offset: (start.offset + encoded_len) as u64,
            };
            &&& record_may_end(next, geometry)
            &&& can_go_on(geometry, next)
            &&& start.offset + encoded_len <= geometry.max_file_size
        }),
{
    lemma_page_end(geometry, start.offset as int);
    let remaining = geometry.remaining(start.offset as int);
    lemma_first_page(geometry, start.offset as int);
    lemma_first_page(geometry, start.offset + encoded_len);
    if encoded_len == remaining {
        lemma_advance_to_page_end(geometry, start.offset as int);
    } else {
        lemma_advance_in_page(geometry, start.offset as int, encoded_len as int);
    }
}

impl LayoutPlanner {
    #[verifier::type_invariant]
    spec fn well_formed(&self) -> bool {
        self.geometry.valid() && can_go_on(self.geometry, self.position)
    }

    pub closed spec fn spec_geometry(&self) -> VLogGeometry {
        self.geometry
    }

    pub closed spec fn spec_position(&self) -> VLogPosition {
        self.position
    }

    /// A planner for an empty log.
    pub fn empty(geometry: VLogGeometry) -> (result: Result<Self>)
        ensures
            match result {
                Ok(planner) => geometry.valid() && planner.spec_geometry() == geometry
                    && planner.spec_position() == (VLogPosition { file_id: 0, offset: 0 }),
                Err(error) => !geometry.valid() && error@ == invalid_vlog_view(
                    StorageErrorKind::InvalidArgument,
                ),
            },
    {
        geometry.validate()?;
        proof {
            lemma_first_page(geometry, 0);
        }
        Ok(LayoutPlanner { geometry, position: VLogPosition { file_id: 0, offset: 0 } })
    }

    /// A planner that goes on from a position.
    pub fn from_position(geometry: VLogGeometry, position: VLogPosition) -> (result: Result<Self>)
        ensures
            match result {
                Ok(planner) => {
                    &&& geometry.valid() && can_go_on(geometry, position)
                    &&& planner.spec_geometry() == geometry
                    &&& planner.spec_position() == position
                },
                Err(error) => !(geometry.valid() && can_go_on(geometry, position)) && error@
                    == invalid_vlog_view(StorageErrorKind::InvalidArgument),
            },
    {
        geometry.validate()?;
        if position.file_id > geometry.max_file_id || position.offset > geometry.max_file_size {
            return Err(invalid_vlog_error(StorageErrorKind::InvalidArgument));
        }
        proof {
            lemma_first_page(geometry, position.offset as int);
        }
        if position.offset != 0 && position.offset != geometry.max_file_size {
            let page_offset: u64 = position.offset % geometry.page_size;
            let minimum: u64 = if position.offset < geometry.page_size {
                FIRST_PAGE_RECORD_AREA_START
            } else {
                OTHER_PAGE_RECORD_AREA_OFFSET
            };
            if page_offset != 0 && page_offset < minimum {
                return Err(invalid_vlog_error(StorageErrorKind::InvalidArgument));
            }
        }
        Ok(LayoutPlanner { geometry, position })
    }

    pub fn position(&self) -> (position: VLogPosition)
        ensures
            position == self.spec_position(),
            can_go_on(self.spec_geometry(), position),
    {
        proof {
            use_type_invariant(self);
        }
        self.position
    }

    pub fn geometry(&self) -> (geometry: VLogGeometry)
        ensures
            geometry == self.spec_geometry(),
            geometry.valid(),
    {
        proof {
            use_type_invariant(self);
        }
        self.geometry
    }

    /// Places a record behind the planner's position and moves there. A refusal leaves the
    /// planner where it was.
    pub fn plan_record(&mut self, memory: &mut Memory, encoded_len: u32) -> (result: Result<
        RecordPlacement,
    >)
        requires
            !old(memory).refused(),
        ensures
            final(self).spec_geometry() == old(self).spec_geometry(),
            final(memory).refused() ==> {
                &&& result matches Err(error) && error@ == invalid_vlog_view(
                    StorageErrorKind::ResourceExhausted,
                )
                &&& final(self).spec_position() == old(self).spec_position()
            },
            !final(memory).refused() ==> match planned(
                old(self).spec_geometry(),
                old(self).spec_position(),
                encoded_len,
            ) {
                Ok(plan) => {
                    &&& result matches Ok(placement) && hands_out(placement, plan)
                    &&& final(self).spec_position() == plan.next
                },
                Err(refusal) => {
                    &&& result matches Err(error) && error@ == refusal
                    &&& final(self).spec_position() == old(self).spec_position()
                },
            },
            if PAGE_END_MIN_SIZE <= encoded_len <= old(self).spec_geometry().page_size {
                asked(*old(memory), *final(memory), 1, 4)
            } else {
                *final(memory) == *old(memory)
            },
    {
        if encoded_len < PAGE_END_MIN_SIZE || encoded_len as u64 > self.geometry.page_size {
            return Err(invalid_vlog_error(StorageErrorKind::InvalidArgument));
        }
        let mut preludes: Vec<LayoutPrelude> = Vec::new();
        if !memory.reserve(&mut preludes, 4) {
            return Err(invalid_vlog_error(StorageErrorKind::ResourceExhausted));
        }
        self.plan_record_inner(encoded_len, preludes)
    }

    /// Places a record, given an empty list for what has to be written before it.
    fn plan_record_inner(&mut self, encoded_len: u32, preludes: Vec<LayoutPrelude>) -> (result:
        Result<RecordPlacement>)
        requires
            preludes@.len() == 0,
        ensures
            final(self).spec_geometry() == old(self).spec_geometry(),
            match planned(old(self).spec_geometry(), old(self).spec_position(), encoded_len) {
                Ok(plan) => {
                    &&& result matches Ok(placement) && hands_out(placement, plan)
                    &&& final(self).spec_position() == plan.next
                },
                Err(refusal) => {
                    &&& result matches Err(error) && error@ == refusal
                    &&& final(self).spec_position() == old(self).spec_position()
                },
            },
    {
        proof {
            use_type_invariant(&*self);
        }
        let geometry = self.geometry;
        if encoded_len < PAGE_END_MIN_SIZE || encoded_len as u64 > geometry.page_size {
            return Err(invalid_vlog_error(StorageErrorKind::InvalidArgument));
        }
        let mut preludes: Vec<LayoutPrelude> = preludes;
        let mut position = self.position;
        ensure_record_area(geometry, &mut position, &mut preludes)?;
        proof {
            lemma_record_area(geometry, self.position);
            lemma_page_end(geometry, position.offset as int);
            let area = record_area(geometry, self.position)->0;
            assert(preludes@ =~= area.0);
        }
        let remaining: u64 = remaining_in_page(position.offset, geometry)?;
        let length: u64 = encoded_len as u64;
        if length > remaining || (remaining > length && remaining - length
            < PAGE_END_MIN_SIZE as u64) {
            if remaining < PAGE_END_MIN_SIZE as u64 {
                return Err(decode_error(StorageErrorKind::InvalidLayout));
            }
            preludes.push(LayoutPrelude::PageEnd { position, encoded_len: remaining as u32 });
            position = VLogPosition {
                file_id: position.file_id,
                offset: position.offset + remaining,
            };
            let ghost closed = preludes@;
            let ghost page_end = position;
            proof {
                lemma_advance_to_page_end(geometry, (position.offset - remaining) as int);
            }
            ensure_record_area(geometry, &mut position, &mut preludes)?;
            proof {
                lemma_record_area(geometry, page_end);
                lemma_page_end(geometry, position.offset as int);
            }
        }
        let room: u64 = remaining_in_page(position.offset, geometry)?;
        if length > room {
            return Err(invalid_vlog_error(StorageErrorKind::InvalidArgument));
        }
        if room > length && room - length < PAGE_END_MIN_SIZE as u64 {
            return Err(decode_error(StorageErrorKind::InvalidLayout));
        }
        let next = VLogPosition { file_id: position.file_id, offset: position.offset + length };
        proof {
            law_planned_record_stays_in_page(geometry, self.position, encoded_len);
        }
        *self = LayoutPlanner { geometry, position: next };
        Ok(RecordPlacement { preludes, record_start: position, encoded_len })
    }
}

/// Adds the headers that a position needs, and moves behind them.
fn ensure_record_area(
    geometry: VLogGeometry,
    position: &mut VLogPosition,
    preludes: &mut Vec<LayoutPrelude>,
) -> (result: Result<()>)
    requires
        geometry.valid(),
        can_go_on(geometry, *old(position)),
    ensures
        match record_area(geometry, *old(position)) {
            Some((headers, start)) => {
                &&& result is Ok
                &&& final(preludes)@ == old(preludes)@ + headers
                &&& *final(position) == start
            },
            None => result matches Err(error) && error@ == capacity_view(),
        },
{
    let ghost before = preludes@;
    let mut at = *position;
    if at.offset == geometry.max_file_size {
        if at.file_id >= geometry.max_file_id {
            return Err(capacity_error());
        }
        at = VLogPosition { file_id: at.file_id + 1, offset: 0 };
    }
    proof {
        lemma_record_area(geometry, *old(position));
        lemma_first_page(geometry, at.offset as int);
        lemma_page_number(geometry, at.offset as int);
    }
    if at.offset == 0 {
        preludes.push(LayoutPrelude::PageHeader { position: at, page_no: 0 });
        preludes.push(
            LayoutPrelude::FileHeader {
                position: VLogPosition {
                    file_id: at.file_id,
                    offset: PAGE_HEADER_ENCODED_LEN as u64,
                },
            },
        );
        *position = VLogPosition { file_id: at.file_id, offset: FIRST_PAGE_RECORD_AREA_START };
    } else if at.offset % geometry.page_size == 0 {
        let page_no: u64 = at.offset / geometry.page_size;
        preludes.push(LayoutPrelude::PageHeader { position: at, page_no: page_no as u32 });
        *position = VLogPosition {
            file_id: at.file_id,
            offset: at.offset + OTHER_PAGE_RECORD_AREA_OFFSET,
        };
    } else {
        *position = at;
    }
    proof {
        let area = record_area(geometry, *old(position))->0;
        assert(preludes@ =~= before + area.0);
    }
    validate_record_start(*position, geometry)
}

/// The log can go on from everywhere but from inside a header: of the page, or of the file. It can
/// go on from the end of a full file, in the next one.
pub proof fn law_log_goes_on_outside_headers(geometry: VLogGeometry, position: VLogPosition)
    requires
        geometry.valid(),
        position.file_id <= geometry.max_file_id,
        position.offset <= geometry.max_file_size,
    ensures
        !can_go_on(geometry, position) <==> 0 < position.offset < 64 || 0 < position.offset
            % geometry.page_size < 16,
        geometry.record_may_start(position) ==> can_go_on(geometry, position),
        can_go_on(geometry, VLogPosition { offset: geometry.max_file_size, ..position }),
        can_go_on(geometry, VLogPosition { offset: 0, ..position }),
{
    if position.offset < geometry.page_size {
        vstd::arithmetic::div_mod::lemma_small_mod(
            position.offset as nat,
            geometry.page_size as nat,
        );
    }
    assert(0 as int % geometry.page_size as int == 0) by {
        vstd::arithmetic::div_mod::lemma_small_mod(0, geometry.page_size as nat);
    }
}

} // verus!

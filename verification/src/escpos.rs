use vstd::prelude::*;
use vstd::string::*;

use crate::error::{is_invalid_argument, SlipbridgeError};
use crate::render::{
    lemma_packed_rows_len, packed_rows, render_error, render_height, render_width, rendered_luma,
    row_bytes, RenderOptions, RenderedImage, RgbaPixels,
};

verus! {

/// Limits applied while splitting a raster into ESC/POS commands.
#[derive(Copy, Clone, Debug)]
pub struct RasterOptions {
    pub max_payload_bytes: usize,
    pub max_rows_per_command: u16,
    pub cut: bool,
}

/// A complete ESC/POS byte stream together with how its raster was split.
#[derive(Clone, Debug)]
pub struct EscPosJob {
    pub bytes: Vec<u8>,
    pub chunk_count: usize,
    pub rows_per_chunk: Vec<u16>,
}

/// The larger of `a` and `b`.
pub open spec fn max_int(a: int, b: int) -> int {
    if a >= b { a } else { b }
}

/// The smaller of `a` and `b`.
pub open spec fn min_int(a: int, b: int) -> int {
    if a <= b { a } else { b }
}

/// How many rows one raster command may carry: as many as fit in the payload
/// limit, at least one, and no more than the per-command row limit (itself at least one).
pub open spec fn rows_limit(bytes_per_row: int, max_payload_bytes: int, max_rows_per_command: int) -> int {
    min_int(max_int(max_payload_bytes / bytes_per_row, 1), max_int(max_rows_per_command, 1))
}

/// Rows of each chunk when rows `start..total` are cut into chunks of at most `limit` rows.
pub open spec fn chunk_rows_from(start: int, total: int, limit: int) -> Seq<u16>
    decreases total - start,
{
    if start >= total || limit <= 0 {
        seq![]
    } else {
        let rows = min_int(total - start, limit);
        seq![rows as u16] + chunk_rows_from(start + rows, total, limit)
    }
}

/// `GS v 0` header of one raster command: mode 0, width `x` bytes, `rows` rows, little endian.
pub open spec fn raster_command(x: int, rows: int) -> Seq<u8> {
    seq![
        0x1Du8,
        0x76u8,
        0x30u8,
        0x00u8,
        (x % 256) as u8,
        (x / 256) as u8,
        (rows % 256) as u8,
        (rows / 256) as u8,
    ]
}

/// The raster commands for rows `start..total`, each header followed by its rows of data.
pub open spec fn chunk_stream_from(
    raster: Seq<u8>,
    bytes_per_row: int,
    start: int,
    total: int,
    limit: int,
) -> Seq<u8>
    decreases total - start,
{
    if start >= total || limit <= 0 {
        seq![]
    } else {
        let rows = min_int(total - start, limit);
        raster_command(bytes_per_row, rows) + raster.subrange(
            start * bytes_per_row,
            (start + rows) * bytes_per_row,
        ) + chunk_stream_from(raster, bytes_per_row, start + rows, total, limit)
    }
}

/// Payload of the raster commands for rows `start..total`, headers left out.
pub open spec fn chunk_payload_from(
    raster: Seq<u8>,
    bytes_per_row: int,
    start: int,
    total: int,
    limit: int,
) -> Seq<u8>
    decreases total - start,
{
    if start >= total || limit <= 0 {
        seq![]
    } else {
        let rows = min_int(total - start, limit);
        raster.subrange(start * bytes_per_row, (start + rows) * bytes_per_row) + chunk_payload_from(
            raster,
            bytes_per_row,
            start + rows,
            total,
            limit,
        )
    }
}

/// `ESC @` (initialize) then `ESC a 0` (left align).
pub open spec fn job_preamble() -> Seq<u8> {
    seq![0x1Bu8, 0x40u8, 0x1Bu8, 0x61u8, 0x00u8]
}

/// `ESC d 3` (feed three lines), then `GS V A 0` (full cut) when cutting.
pub open spec fn job_trailer(cut: bool) -> Seq<u8> {
    seq![0x1Bu8, 0x64u8, 0x03u8] + if cut {
        seq![0x1Du8, 0x56u8, 0x41u8, 0x00u8]
    } else {
        seq![]
    }
}

/// Why a rendered image cannot be turned into a job, if it cannot.
pub open spec fn raster_job_error(rendered: RenderedImage) -> Option<Seq<char>> {
    let bpr = rendered.bytes_per_row as int;
    let h = rendered.height_px as int;
    if bpr == 0 || h == 0 {
        Some("cannot build ESC/POS job for empty image"@)
    } else if bpr * h > usize::MAX {
        Some("image buffer overflow"@)
    } else if rendered.raster_data@.len() != bpr * h {
        Some("rendered raster payload length is inconsistent"@)
    } else if bpr > 0xFFFF {
        Some("image row is too wide for ESC/POS raster mode"@)
    } else {
        None
    }
}

/// The rows per command that a job for `rendered` uses.
pub open spec fn job_rows_limit(rendered: RenderedImage, options: RasterOptions) -> int {
    rows_limit(
        rendered.bytes_per_row as int,
        options.max_payload_bytes as int,
        options.max_rows_per_command as int,
    )
}

/// The full byte stream of the job for `rendered`.
pub open spec fn job_bytes(rendered: RenderedImage, options: RasterOptions) -> Seq<u8> {
    job_preamble() + chunk_stream_from(
        rendered.raster_data@,
        rendered.bytes_per_row as int,
        0,
        rendered.height_px as int,
        job_rows_limit(rendered, options),
    ) + job_trailer(options.cut)
}

/// The rows carried by each raster command of the job for `rendered`.
pub open spec fn job_rows(rendered: RenderedImage, options: RasterOptions) -> Seq<u16> {
    chunk_rows_from(0, rendered.height_px as int, job_rows_limit(rendered, options))
}

fn literal_string(s: &str) -> (r: String)
    ensures
        r@ == s@,
{
    String::from_str(s)
}

fn push_all(bytes: &mut Vec<u8>, extra: &[u8])
    ensures
        final(bytes)@ == old(bytes)@ + extra@,
{
    let mut i: usize = 0;
    while i < extra.len()
        invariant
            i <= extra@.len(),
            bytes@ == old(bytes)@ + extra@.subrange(0, i as int),
        decreases extra@.len() - i,
    {
        bytes.push(extra[i]);
        i = i + 1;
        assert(extra@.subrange(0, i as int) =~= extra@.subrange(0, i - 1 as int).push(
            extra@[i - 1],
        ));
    }
    assert(extra@.subrange(0, extra@.len() as int) =~= extra@);
}

fn push_range(bytes: &mut Vec<u8>, data: &Vec<u8>, start: usize, end: usize)
    requires
        start <= end <= data@.len(),
    ensures
        final(bytes)@ == old(bytes)@ + data@.subrange(start as int, end as int),
{
    let mut i: usize = start;
    while i < end
        invariant
            start <= i <= end <= data@.len(),
            bytes@ == old(bytes)@ + data@.subrange(start as int, i as int),
        decreases end - i,
    {
        bytes.push(data[i]);
        i = i + 1;
        assert(data@.subrange(start as int, i as int) =~= data@.subrange(
            start as int,
            i - 1 as int,
        ).push(data@[i - 1]));
    }
}

proof fn lemma_row_offsets(row_start: int, rows: int, total: int, bpr: int)
    requires
        0 <= row_start,
        0 <= rows,
        row_start + rows <= total,
        0 <= bpr,
    ensures
        row_start * bpr <= (row_start + rows) * bpr <= total * bpr,
        (row_start + rows) * bpr == row_start * bpr + rows * bpr,
{
    assert(row_start * bpr <= (row_start + rows) * bpr <= total * bpr) by (nonlinear_arith)
        requires
            0 <= row_start,
            0 <= rows,
            row_start + rows <= total,
            0 <= bpr,
    ;
    assert((row_start + rows) * bpr == row_start * bpr + rows * bpr) by (nonlinear_arith);
}

/// Builds the ESC/POS job that prints `rendered`: initialize, left align, one
/// `GS v 0` raster command per chunk of rows, feed three lines, and cut when asked.
pub fn build_raster_print_job(rendered: &RenderedImage, options: RasterOptions) -> (res: Result<
    EscPosJob,
    SlipbridgeError,
>)
    ensures
        match res {
            Ok(job) => {
                &&& raster_job_error(*rendered) is None
                &&& job.bytes@ == job_bytes(*rendered, options)
                &&& job.rows_per_chunk@ == job_rows(*rendered, options)
                &&& job.chunk_count == job.rows_per_chunk@.len()
            },
            Err(e) => raster_job_error(*rendered) matches Some(m) && is_invalid_argument(e, m),
        },
{
    if rendered.bytes_per_row == 0 || rendered.height_px == 0 {
        return Err(
            SlipbridgeError::invalid_argument(
                literal_string("cannot build ESC/POS job for empty image"),
            ),
        );
    }
    let expected_len = match rendered.bytes_per_row.checked_mul(rendered.height_px as usize) {
        Some(n) => n,
        None => {
            return Err(
                SlipbridgeError::invalid_argument(literal_string("image buffer overflow")),
            );
        },
    };
    if rendered.raster_data.len() != expected_len {
        return Err(
            SlipbridgeError::invalid_argument(
                literal_string("rendered raster payload length is inconsistent"),
            ),
        );
    }
    if rendered.bytes_per_row > 0xFFFF {
        return Err(
            SlipbridgeError::invalid_argument(
                literal_string("image row is too wide for ESC/POS raster mode"),
            ),
        );
    }
    let bytes_per_row = rendered.bytes_per_row;
    let x = bytes_per_row;

    let rows_by_payload = options.max_payload_bytes / bytes_per_row;
    let at_least_one = if rows_by_payload >= 1 {
        rows_by_payload
    } else {
        1
    };
    let command_rows: usize = if options.max_rows_per_command >= 1 {
        options.max_rows_per_command as usize
    } else {
        1
    };
    let max_rows = if at_least_one <= command_rows {
        at_least_one
    } else {
        command_rows
    };
    assert(max_rows == job_rows_limit(*rendered, options));

    let mut bytes: Vec<u8> = Vec::new();
    let mut rows_per_chunk: Vec<u16> = Vec::new();

    push_all(&mut bytes, &[0x1B, 0x40, 0x1B, 0x61, 0x00]);

    let total_rows = rendered.height_px as usize;
    let mut row_start: usize = 0;
    let ghost raster = rendered.raster_data@;
    let ghost bpr = bytes_per_row as int;
    let ghost limit = max_rows as int;

    while row_start < total_rows
        invariant
            bpr == bytes_per_row,
            0 < bytes_per_row <= 0xFFFF,
            x == bytes_per_row,
            total_rows == rendered.height_px,
            raster == rendered.raster_data@,
            raster.len() == bpr * total_rows,
            raster.len() <= usize::MAX,
            limit == max_rows,
            1 <= max_rows <= 0xFFFF,
            row_start <= total_rows,
            job_preamble() + chunk_stream_from(raster, bpr, 0, total_rows as int, limit)
                == bytes@ + chunk_stream_from(raster, bpr, row_start as int, total_rows as int, limit),
            chunk_rows_from(0, total_rows as int, limit) == rows_per_chunk@ + chunk_rows_from(
                row_start as int,
                total_rows as int,
                limit,
            ),
        decreases total_rows - row_start,
    {
        let remaining = total_rows - row_start;
        let rows = if remaining <= max_rows {
            remaining
        } else {
            max_rows
        };
        let y = rows as u16;
        proof {
            lemma_row_offsets(row_start as int, rows as int, total_rows as int, bpr);
            assert(rows * bpr >= 0) by (nonlinear_arith) requires rows >= 0, bpr >= 0;
        }
        let start = row_start * bytes_per_row;
        let end = start + rows * bytes_per_row;

        let ghost before = bytes@;
        push_all(
            &mut bytes,
            &[0x1D, 0x76, 0x30, 0x00, (x % 256) as u8, (x / 256) as u8, (y % 256) as u8, (y / 256) as u8],
        );
        push_range(&mut bytes, &rendered.raster_data, start, end);
        rows_per_chunk.push(y);

        proof {
            let s = row_start as int;
            assert(chunk_stream_from(raster, bpr, s, total_rows as int, limit) == raster_command(
                bpr,
                rows as int,
            ) + raster.subrange(s * bpr, (s + rows) * bpr) + chunk_stream_from(
                raster,
                bpr,
                s + rows,
                total_rows as int,
                limit,
            ));
            assert(bytes@ =~= before + raster_command(bpr, rows as int) + raster.subrange(
                s * bpr,
                (s + rows) * bpr,
            ));
            assert(chunk_rows_from(s, total_rows as int, limit) == seq![rows as u16]
                + chunk_rows_from(s + rows, total_rows as int, limit));
        }
        row_start = row_start + rows;
        proof {
            assert(job_preamble() + chunk_stream_from(raster, bpr, 0, total_rows as int, limit)
                =~= bytes@ + chunk_stream_from(raster, bpr, row_start as int, total_rows as int, limit));
            assert(chunk_rows_from(0, total_rows as int, limit) =~= rows_per_chunk@ + chunk_rows_from(
                row_start as int,
                total_rows as int,
                limit,
            ));
        }
    }
    assert(bytes@ =~= job_preamble() + chunk_stream_from(raster, bpr, 0, total_rows as int, limit));
    assert(rows_per_chunk@ =~= chunk_rows_from(0, total_rows as int, limit));

    push_all(&mut bytes, &[0x1B, 0x64, 0x03]);
    if options.cut {
        push_all(&mut bytes, &[0x1D, 0x56, 0x41, 0x00]);
    }
    assert(bytes@ =~= job_bytes(*rendered, options));

    let chunk_count = rows_per_chunk.len();
    Ok(EscPosJob { bytes, chunk_count, rows_per_chunk })
}

/// Sum of the row counts in `rows`.
pub open spec fn sum_rows(rows: Seq<u16>) -> int
    decreases rows.len(),
{
    if rows.len() == 0 {
        0
    } else {
        rows[0] as int + sum_rows(rows.drop_first())
    }
}

proof fn lemma_chunk_rows(start: int, total: int, limit: int)
    requires
        0 <= start <= total,
        1 <= limit <= 0xFFFF,
    ensures
        sum_rows(chunk_rows_from(start, total, limit)) == total - start,
        chunk_rows_from(start, total, limit).len() == (total - start + limit - 1) / limit,
        forall|i: int|
            0 <= i < chunk_rows_from(start, total, limit).len() ==> 1 <= #[trigger] chunk_rows_from(
                start,
                total,
                limit,
            )[i] <= limit,
    decreases total - start,
{
    let d = total - start;
    if d == 0 {
        vstd::arithmetic::div_mod::lemma_basic_div(limit - 1, limit);
    } else {
        let rows = min_int(d, limit);
        let s = chunk_rows_from(start, total, limit);
        let rest = chunk_rows_from(start + rows, total, limit);
        lemma_chunk_rows(start + rows, total, limit);
        assert(s == seq![rows as u16] + rest);
        assert(s.drop_first() =~= rest);
        vstd::arithmetic::div_mod::lemma_div_plus_one(d - 1, limit);
        if d <= limit {
            vstd::arithmetic::div_mod::lemma_basic_div(d - 1, limit);
            vstd::arithmetic::div_mod::lemma_basic_div(limit - 1, limit);
        } else {
            assert(total - (start + rows) + limit - 1 == d - 1);
        }
        assert forall|i: int| 0 <= i < s.len() implies 1 <= #[trigger] s[i] <= limit by {
            if i > 0 {
                assert(s[i] == rest[i - 1]);
            }
        }
    }
}

proof fn lemma_chunk_stream_len(raster: Seq<u8>, bpr: int, start: int, total: int, limit: int)
    requires
        0 <= start <= total,
        1 <= limit <= 0xFFFF,
        0 <= bpr,
        raster.len() >= total * bpr,
    ensures
        chunk_stream_from(raster, bpr, start, total, limit).len() == 8 * chunk_rows_from(
            start,
            total,
            limit,
        ).len() + (total - start) * bpr,
        chunk_payload_from(raster, bpr, start, total, limit) == raster.subrange(
            start * bpr,
            total * bpr,
        ),
    decreases total - start,
{
    if start < total {
        let rows = min_int(total - start, limit);
        lemma_row_offsets(start, rows, total, bpr);
        lemma_chunk_stream_len(raster, bpr, start + rows, total, limit);
        assert((total - start) * bpr == rows * bpr + (total - (start + rows)) * bpr)
            by (nonlinear_arith);
        assert(raster.subrange(start * bpr, (start + rows) * bpr) + raster.subrange(
            (start + rows) * bpr,
            total * bpr,
        ) =~= raster.subrange(start * bpr, total * bpr));
        assert(chunk_rows_from(start, total, limit).len() == 1 + chunk_rows_from(
            start + rows,
            total,
            limit,
        ).len());
        assert(raster.subrange(start * bpr, (start + rows) * bpr).len() == rows * bpr);
        assert(raster_command(bpr, rows).len() == 8);
        assert(chunk_stream_from(raster, bpr, start, total, limit) == raster_command(bpr, rows)
            + raster.subrange(start * bpr, (start + rows) * bpr) + chunk_stream_from(
            raster,
            bpr,
            start + rows,
            total,
            limit,
        ));
    } else {
        assert(raster.subrange(start * bpr, total * bpr) =~= Seq::<u8>::empty());
        assert((total - start) * bpr == 0) by (nonlinear_arith)
            requires
                start == total,
        ;
    }
}

/// Splitting a raster into commands prints every row exactly once: the chunks'
/// row counts add up to the image height, each chunk carries between one row and
/// the row limit, there are `ceil(height / limit)` chunks, and no chunk carries more
/// payload than the payload limit, unless a single row is already larger than it.
pub proof fn law_chunks_cover_image(rendered: RenderedImage, options: RasterOptions)
    requires
        raster_job_error(rendered) is None,
    ensures
        ({
            let rows = job_rows(rendered, options);
            let limit = job_rows_limit(rendered, options);
            let bpr = rendered.bytes_per_row as int;
            &&& sum_rows(rows) == rendered.height_px
            &&& rows.len() == (rendered.height_px + limit - 1) / limit
            &&& forall|i: int|
                0 <= i < rows.len() ==> 1 <= #[trigger] rows[i] <= limit && rows[i] * bpr
                    <= max_int(options.max_payload_bytes as int, bpr)
        }),
{
    let rows = job_rows(rendered, options);
    let limit = job_rows_limit(rendered, options);
    let bpr = rendered.bytes_per_row as int;
    let payload = options.max_payload_bytes as int;
    lemma_chunk_rows(0, rendered.height_px as int, limit);
    assert forall|i: int| 0 <= i < rows.len() implies 1 <= #[trigger] rows[i] <= limit && rows[i]
        * bpr <= max_int(payload, bpr) by {
        let r = rows[i] as int;
        let q = payload / bpr;
        assert(r <= max_int(q, 1));
        if q >= 1 {
            assert(r * bpr <= q * bpr) by (nonlinear_arith)
                requires
                    r <= q,
                    bpr > 0,
            ;
            vstd::arithmetic::div_mod::lemma_fundamental_div_mod(payload, bpr);
            vstd::arithmetic::mul::lemma_mul_is_commutative(bpr, q);
            assert(payload % bpr >= 0) by {
                vstd::arithmetic::div_mod::lemma_mod_pos_bound(payload, bpr);
            }
        } else {
            assert(r == 1);
        }
    }
}

/// A job is exactly as long as its parts: five bytes of preamble, an eight-byte
/// header per chunk, the raster itself, three bytes of feed and four of cut when cutting.
pub proof fn law_job_length(rendered: RenderedImage, options: RasterOptions)
    requires
        raster_job_error(rendered) is None,
    ensures
        job_bytes(rendered, options).len() == 5 + 8 * job_rows(rendered, options).len()
            + rendered.raster_data@.len() + 3 + if options.cut {
            4int
        } else {
            0int
        },
{
    let limit = job_rows_limit(rendered, options);
    lemma_chunk_stream_len(
        rendered.raster_data@,
        rendered.bytes_per_row as int,
        0,
        rendered.height_px as int,
        limit,
    );
}

/// The raster goes out unchanged and in order: the payloads of the raster
/// commands, headers left out, are the rendered raster.
pub proof fn law_raster_payload_unchanged(rendered: RenderedImage, options: RasterOptions)
    requires
        raster_job_error(rendered) is None,
    ensures
        chunk_payload_from(
            rendered.raster_data@,
            rendered.bytes_per_row as int,
            0,
            rendered.height_px as int,
            job_rows_limit(rendered, options),
        ) == rendered.raster_data@,
{
    let limit = job_rows_limit(rendered, options);
    let raster = rendered.raster_data@;
    lemma_chunk_stream_len(raster, rendered.bytes_per_row as int, 0, rendered.height_px as int, limit);
    assert(raster.subrange(0, rendered.height_px * rendered.bytes_per_row) =~= raster);
}

/// Rendering and framing fit together: what `render_image_for_thermal` returns for an
/// image whose rendered rows fit a raster command (at most 65535 bytes, so at most
/// 524280 dots wide) passes every check of `build_raster_print_job`.
pub proof fn law_rendered_image_makes_job(
    image: RgbaPixels,
    options: RenderOptions,
    scaled_height: u32,
    rendered: RenderedImage,
)
    requires
        render_error(image, options) is None,
        render_height(image, options, scaled_height) >= 1,
        render_width(image, options) <= 8 * 0xFFFF,
        rendered.width_px == render_width(image, options),
        rendered.height_px == render_height(image, options, scaled_height),
        rendered.bytes_per_row == row_bytes(rendered.width_px as int),
        rendered.raster_data@ == packed_rows(
            rendered_luma(image, options, scaled_height),
            rendered.width_px as int,
            rendered.height_px as nat,
        ),
    ensures
        raster_job_error(rendered) is None,
{
    let w = rendered.width_px as int;
    let h = rendered.height_px as nat;
    lemma_packed_rows_len(rendered_luma(image, options, scaled_height), w, h);
    assert(rendered.raster_data@.len() <= usize::MAX) by {
        assert(rendered.raster_data@.len() == rendered.raster_data.len());
    }
}

} // verus!

use vstd::prelude::*;

use vstd::rwlock::{RwLock, RwLockPredicate};

use crate::canvas::{pixel_index, CellPred};
use crate::scalar::Scalar;
use crate::vec3::Vec3;

verus! {

/// The invariant the completion counter keeps: a well-formed scalar.
pub struct CompletePred {}

impl RwLockPredicate<Scalar> for CompletePred {
    open spec fn inv(self, v: Scalar) -> bool {
        v.wf()
    }
}

/// A canvas of independently lockable pixels together with a completion
/// fraction, both readable at any time while a render is writing.
pub struct ImageData {
    pub x_size: usize,
    pub y_size: usize,
    pub complete: RwLock<Scalar, CompletePred>,
    pub canvas: Vec<RwLock<Vec3, CellPred>>,
}

fn to_index(x: usize, y: usize, x_size: usize) -> (r: usize)
    requires
        (y as int) * (x_size as int) + (x as int) <= usize::MAX as int,
    ensures
        r as int == pixel_index(x as int, y as int, x_size as int),
{
    y * x_size + x
}

proof fn lemma_pixel_index_in_grid(x: int, y: int, x_size: int, y_size: int)
    requires
        0 <= x < x_size,
        0 <= y < y_size,
    ensures
        0 <= pixel_index(x, y, x_size) < x_size * y_size,
{
    assert(y * x_size + x < x_size * y_size) by (nonlinear_arith)
        requires
            0 <= x < x_size,
            0 <= y < y_size,
    ;
    assert(y * x_size >= 0) by (nonlinear_arith)
        requires
            y >= 0,
            x_size > 0,
    ;
}

impl ImageData {
    pub open spec fn wf(self) -> bool {
        &&& self.canvas@.len() == (self.x_size as int) * (self.y_size as int)
        &&& (self.x_size as int) * (self.y_size as int) <= usize::MAX as int
        &&& forall|i: int|
            0 <= i < self.canvas@.len() ==> (#[trigger] self.canvas@[i]).pred() == (CellPred {  })
        &&& self.complete.pred() == (CompletePred {  })
    }

    fn new(
        x_size: usize,
        y_size: usize,
        complete: RwLock<Scalar, CompletePred>,
        canvas: Vec<RwLock<Vec3, CellPred>>,
    ) -> (r: ImageData)
        ensures
            r.x_size == x_size,
            r.y_size == y_size,
            r.complete == complete,
            r.canvas == canvas,
    {
        ImageData { x_size, y_size, complete, canvas }
    }

    /// An accumulator with every pixel set to `init_value` and the completion
    /// fraction at zero.
    pub fn new_blank(x_size: usize, y_size: usize, init_value: Vec3) -> (r: ImageData)
        requires
            (x_size as int) * (y_size as int) <= usize::MAX as int,
            init_value.wf(),
        ensures
            r.wf(),
            r.x_size == x_size,
            r.y_size == y_size,
    {
        let total: usize = x_size * y_size;
        let mut cells: Vec<RwLock<Vec3, CellPred>> = Vec::new();
        let mut i: usize = 0;
        while i < total
            invariant
                0 <= i <= total,
                cells@.len() == i,
                init_value.wf(),
                forall|j: int|
                    0 <= j < cells@.len() ==> (#[trigger] cells@[j]).pred() == (CellPred {  }),
            decreases total - i,
        {
            cells.push(RwLock::new(init_value, Ghost(CellPred {  })));
            i = i + 1;
        }
        ImageData::new(
            x_size,
            y_size,
            RwLock::new(Scalar::zero(), Ghost(CompletePred {  })),
            cells,
        )
    }

    pub fn x_size(&self) -> (r: usize)
        ensures
            r == self.x_size,
    {
        self.x_size
    }

    pub fn y_size(&self) -> (r: usize)
        ensures
            r == self.y_size,
    {
        self.y_size
    }

    /// The completion fraction at this moment.
    pub fn get_complete(&self) -> (r: Scalar)
        requires
            self.wf(),
        ensures
            r.wf(),
    {
        let handle = self.complete.acquire_read();
        let value: Scalar = *handle.borrow();
        handle.release_read();
        value
    }

    /// Atomically replaces the completion fraction with `update` of its
    /// current value and returns the new value.
    pub fn update_complete<F: Fn(Scalar) -> Scalar>(&self, update: F) -> (r: Scalar)
        requires
            self.wf(),
            forall|v: Scalar| v.wf() ==> #[trigger] call_requires(update, (v,)),
            forall|v: Scalar, w: Scalar|
                v.wf() && #[trigger] call_ensures(update, (v,), w) ==> w.wf(),
        ensures
            r.wf(),
            exists|prev: Scalar| prev.wf() && #[trigger] call_ensures(update, (prev,), r),
    {
        let (prev, write_handle) = self.complete.acquire_write();
        let next: Scalar = update(prev);
        write_handle.release_write(next);
        next
    }

    /// A snapshot of one pixel; other threads may write it concurrently, so
    /// only the cell invariant is known of the value.
    pub fn get_pixel(&self, x: usize, y: usize) -> (r: Vec3)
        requires
            self.wf(),
            x < self.x_size,
            y < self.y_size,
        ensures
            r.wf(),
    {
        proof {
            lemma_pixel_index_in_grid(x as int, y as int, self.x_size as int, self.y_size as int);
        }
        let i: usize = to_index(x, y, self.x_size);
        let handle = self.canvas[i].acquire_read();
        let value: Vec3 = *handle.borrow();
        handle.release_read();
        value
    }

    /// Atomically replaces the pixel with `update` of its current value and
    /// returns the new value.  The closure must keep the cell invariant.
    pub fn update_pixel<F: Fn(Vec3) -> Vec3>(&self, x: usize, y: usize, update: F) -> (r: Vec3)
        requires
            self.wf(),
            x < self.x_size,
            y < self.y_size,
            forall|v: Vec3| v.wf() ==> #[trigger] call_requires(update, (v,)),
            forall|v: Vec3, w: Vec3|
                v.wf() && #[trigger] call_ensures(update, (v,), w) ==> w.wf(),
        ensures
            r.wf(),
            exists|prev: Vec3| prev.wf() && #[trigger] call_ensures(update, (prev,), r),
    {
        proof {
            lemma_pixel_index_in_grid(x as int, y as int, self.x_size as int, self.y_size as int);
        }
        let i: usize = to_index(x, y, self.x_size);
        let (prev, write_handle) = self.canvas[i].acquire_write();
        let next: Vec3 = update(prev);
        write_handle.release_write(next);
        next
    }

    /// A consistent per-cell snapshot of the whole grid, row-major; cells read
    /// at different moments need not be mutually consistent.
    pub fn into_vec(&self) -> (r: Vec<Vec3>)
        requires
            self.wf(),
        ensures
            r@.len() == self.canvas@.len(),
            forall|i: int| 0 <= i < r@.len() ==> (#[trigger] r@[i]).wf(),
    {
        let mut out: Vec<Vec3> = Vec::new();
        let mut i: usize = 0;
        while i < self.canvas.len()
            invariant
                self.wf(),
                0 <= i <= self.canvas@.len(),
                out@.len() == i,
                forall|j: int| 0 <= j < out@.len() ==> (#[trigger] out@[j]).wf(),
            decreases self.canvas@.len() - i,
        {
            let handle = self.canvas[i].acquire_read();
            let value: Vec3 = *handle.borrow();
            handle.release_read();
            out.push(value);
            i = i + 1;
        }
        out
    }
}

} // verus!

use vstd::prelude::*;

verus! {

/// The smallest analysis window the spectrum display uses.
pub const MIN_FFT_SIZE: usize = 1024;

/// The largest analysis window the spectrum display uses.
pub const MAX_FFT_SIZE: usize = 8192;

/// The first of `p`, `2p`, `4p`, ... that is at least `n`.
pub open spec fn doubled_until(n: nat, p: nat) -> nat
    decreases (if p >= n {
        0
    } else {
        n - p
    }),
{
    if p == 0 || p >= n {
        p
    } else {
        doubled_until(n, 2 * p)
    }
}

/// The smallest power of two that is at least `n`.
pub open spec fn next_power_of_two(n: nat) -> nat {
    doubled_until(n, 1)
}

/// The analysis window for a host buffer of `max_buffer_size` samples: the
/// smallest power of two that holds both the buffer and the minimal window,
/// capped at the maximal window.
pub open spec fn fft_size_spec(max_buffer_size: nat) -> nat {
    let wanted = if max_buffer_size > MIN_FFT_SIZE {
        max_buffer_size
    } else {
        MIN_FFT_SIZE as nat
    };
    let p = next_power_of_two(wanted);
    if p < MAX_FFT_SIZE {
        p
    } else {
        MAX_FFT_SIZE as nat
    }
}

proof fn lemma_doubled_until_ge(n: nat, p: nat)
    requires
        p > 0,
    ensures
        doubled_until(n, p) >= p,
        doubled_until(n, p) >= n,
    decreases (if p >= n {
        0
    } else {
        n - p
    }),
{
    if p < n {
        lemma_doubled_until_ge(n, 2 * p);
    }
}

/// The analysis window, written out case by case.
pub proof fn lemma_fft_size_cases(n: nat)
    ensures
        fft_size_spec(n) == (if n <= 1024 {
            1024
        } else if n <= 2048 {
            2048
        } else if n <= 4096 {
            4096
        } else {
            8192nat
        }),
{
    let m: nat = if n > 1024 {
        n
    } else {
        1024
    };
    assert(doubled_until(m, 1) == doubled_until(m, 1024)) by {
        reveal_with_fuel(doubled_until, 11);
    }
    if m <= 1024 {
    } else if m <= 2048 {
        assert(doubled_until(m, 1024) == doubled_until(m, 2048));
    } else if m <= 4096 {
        assert(doubled_until(m, 1024) == doubled_until(m, 2048));
        assert(doubled_until(m, 2048) == doubled_until(m, 4096));
    } else {
        assert(doubled_until(m, 1024) == doubled_until(m, 2048));
        assert(doubled_until(m, 2048) == doubled_until(m, 4096));
        assert(doubled_until(m, 4096) == doubled_until(m, 8192));
        lemma_doubled_until_ge(m, 8192);
    }
}

/// The analysis window for a host buffer of at most `max_buffer_size` samples.
pub fn fft_size_for(max_buffer_size: usize) -> (r: usize)
    requires
        max_buffer_size as int <= usize::MAX as int / 2 + 1,
    ensures
        r == fft_size_spec(max_buffer_size as nat),
{
    proof {
        lemma_fft_size_cases(max_buffer_size as nat);
    }
    let mut size: usize = MIN_FFT_SIZE;
    while size < max_buffer_size && size < MAX_FFT_SIZE
        invariant
            size == 1024 || size == 2048 || size == 4096 || size == 8192,
            size == 1024 || size / 2 < max_buffer_size,
        decreases MAX_FFT_SIZE - size,
    {
        size = size * 2;
    }
    size
}

/// The window is always a power of two between the minimal and the maximal
/// window, and it holds every buffer that the maximal window can hold.
pub proof fn law_fft_size_bounds(max_buffer_size: nat)
    ensures
        fft_size_spec(max_buffer_size) == next_power_of_two(fft_size_spec(max_buffer_size)),
        MIN_FFT_SIZE <= fft_size_spec(max_buffer_size) <= MAX_FFT_SIZE,
        max_buffer_size <= MAX_FFT_SIZE ==> max_buffer_size <= fft_size_spec(max_buffer_size),
{
    lemma_fft_size_cases(max_buffer_size);
    let r = fft_size_spec(max_buffer_size);
    assert(next_power_of_two(r) == r) by {
        reveal_with_fuel(doubled_until, 15);
    }
}

/// A larger host buffer never gets a smaller window.
pub proof fn law_fft_size_monotone(n1: nat, n2: nat)
    requires
        n1 <= n2,
    ensures
        fft_size_spec(n1) <= fft_size_spec(n2),
{
    lemma_fft_size_cases(n1);
    lemma_fft_size_cases(n2);
}

} // verus!

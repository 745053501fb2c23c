use rmem::{
    calloc, calloc_for, calloc_with_layout, free, free_for, free_with_layout, layout_of,
    layout_of_aligned, layout_of_bytes, malloc, malloc_for, malloc_with_layout, realloc,
    realloc_with_layout, size_of, size_of_sys_aligned, zcalloc, zfree, zmalloc, zmem_size_of,
    zrealloc, Layout, Ptr,
};

#[test]
fn calc_layout_of_type() {
    assert_eq!(Ok(layout_of::<u8>()), Layout::from_size_align(1, 1));
    assert_eq!(Ok(layout_of::<u16>()), Layout::from_size_align(2, 2));
    assert_eq!(Ok(layout_of::<u32>()), Layout::from_size_align(4, 4));
    assert_eq!(Ok(layout_of::<u64>()), Layout::from_size_align(8, 8));
}

#[test]
fn calc_layout_of_required_bytes() {
    // An arbitrary size can be provided.
    assert_eq!(Ok(layout_of_bytes(1)), Layout::from_size_align(1, 1));
    assert_eq!(Ok(layout_of_bytes(3)), Layout::from_size_align(3, 1));
    assert_eq!(Ok(layout_of_bytes(4)), Layout::from_size_align(4, 1));
    assert_eq!(Ok(layout_of_bytes(5)), Layout::from_size_align(5, 1));

    // It's RECOMMENDED to provide an system-aligned size.
    assert_eq!(
        Ok(layout_of_bytes(size_of_sys_aligned(1))),
        Layout::from_size_align(8, 1)
    );
    assert_eq!(
        Ok(layout_of_bytes(size_of_sys_aligned(3))),
        Layout::from_size_align(8, 1)
    );
    assert_eq!(
        Ok(layout_of_bytes(size_of_sys_aligned(4))),
        Layout::from_size_align(8, 1)
    );
    assert_eq!(
        Ok(layout_of_bytes(size_of_sys_aligned(5))),
        Layout::from_size_align(8, 1)
    );
}

#[test]
fn calc_layout_of_aligned_size() {
    assert_eq!(Ok(layout_of_aligned(1, 1)), Layout::from_size_align(1, 1));
    assert_eq!(Ok(layout_of_aligned(3, 1)), Layout::from_size_align(3, 1));
    assert_eq!(Ok(layout_of_aligned(4, 1)), Layout::from_size_align(4, 1));
    assert_eq!(Ok(layout_of_aligned(5, 1)), Layout::from_size_align(5, 1));

    assert_eq!(Ok(layout_of_aligned(4, 4)), Layout::from_size_align(4, 4));
    assert_eq!(Ok(layout_of_aligned(8, 4)), Layout::from_size_align(8, 4));
}

#[test]
fn mem_alloc_with_layout() {
    let layout = layout_of_bytes(size_of_sys_aligned(6));
    let (ptr, msize) = malloc_with_layout(layout);
    assert!(!ptr.is_null());
    assert_eq!(msize, 8);

    free_with_layout(ptr, layout);
}

#[test]
fn mem_calloc_with_layout() {
    let layout = layout_of_bytes(8);
    let (ptr, size) = calloc_with_layout(layout);
    assert!(!ptr.is_null());
    assert_eq!(size, 8);
    assert_eq!(ptr.as_bytes(), &[0u8; 8][..]);

    free_with_layout(ptr, layout);
}

#[test]
fn mem_realloc_with_layout() {
    let layout = layout_of_bytes(8);
    let (ptr, size) = malloc_with_layout(layout);
    assert!(!ptr.is_null());
    assert_eq!(size, 8);

    let new_layout = layout_of_bytes(16);
    let (ptr, size) = realloc_with_layout(ptr, layout, new_layout);
    assert!(!ptr.is_null());
    assert_eq!(size, 16);

    free_with_layout(ptr, new_layout);
}

#[test]
fn mem_alloc_with_size() {
    let size = size_of_sys_aligned(6);
    let (ptr, msize) = malloc(size);
    assert!(!ptr.is_null());
    assert_eq!(msize, size);

    free(ptr, size);
}

#[test]
fn mem_calloc_with_size() {
    let (ptr, size) = calloc(size_of_sys_aligned(8));
    assert!(!ptr.is_null());
    assert_eq!(size, 8);
    assert_eq!(ptr.as_bytes(), &[0u8; 8][..]);

    free(ptr, size);
}

#[test]
fn mem_realloc_with_size() {
    let (ptr, size) = malloc(size_of_sys_aligned(8));
    assert!(!ptr.is_null());
    assert_eq!(size, 8);

    let (ptr, size) = realloc(ptr, size, size_of_sys_aligned(16));
    assert!(!ptr.is_null());
    assert_eq!(size, 16);

    free(ptr, size);
}

#[test]
fn mem_realloc_for_null_pointer() {
    let (ptr, size) = realloc(Ptr::null(), 0, 8);
    assert!(!ptr.is_null());
    assert_eq!(size, 8);

    free(ptr, size);
}

#[test]
fn mem_alloc_with_type() {
    let (ptr, size) = malloc_for::<u32>();
    assert!(!ptr.is_null());
    assert_eq!(size, size_of::<u32>());

    free_for::<u32>(ptr);
}

#[test]
fn mem_calloc_with_type() {
    let (ptr, size) = calloc_for::<u32>();
    assert!(!ptr.is_null());
    assert_eq!(size, size_of::<u32>());
    assert_eq!(ptr.as_bytes(), &[0u8; 4][..]);

    free_for::<u32>(ptr);
}

#[test]
fn mem_alloc_memory() {
    let (ptr, size) = malloc(size_of_sys_aligned(6));
    assert!(!ptr.is_null());
    assert_eq!(size, 8);

    let (ptr, size) = realloc(ptr, size, size_of_sys_aligned(15));
    assert!(!ptr.is_null());
    assert_eq!(size, 16);

    free(ptr, size);

    let (ptr, size) = calloc(size_of::<u32>());
    assert!(!ptr.is_null());
    assert_eq!(size, 4);
    assert_eq!(ptr.as_bytes(), &[0u8; 4][..]);

    free(ptr, size);
}

#[test]
fn mem_alloc_element() {
    let (ptr, size) = malloc_for::<u32>();
    assert!(!ptr.is_null());
    assert_eq!(size, 4);

    free_for::<u32>(ptr);

    let (ptr, size) = calloc_for::<u32>();
    assert!(!ptr.is_null());
    assert_eq!(size, 4);
    assert_eq!(ptr.as_bytes(), &[0u8; 4][..]);

    free_for::<u32>(ptr);
}

#[test]
fn zmem_alloc_memory() {
    let (ptr, size) = zmalloc(6);
    assert!(!ptr.is_null());
    assert_eq!(size, 8);
    assert_eq!(zmem_size_of(&ptr), 8);

    let (ptr, size) = zrealloc(ptr, 15);
    assert!(!ptr.is_null());
    assert_eq!(size, 16);
    assert_eq!(zmem_size_of(&ptr), 16);

    zfree(ptr);

    let (ptr, size) = zcalloc(6);
    assert!(!ptr.is_null());
    assert_eq!(size, 8);
    assert_eq!(zmem_size_of(&ptr), 8);
    assert_eq!(ptr.body_prefix(8), &[0u8; 8][..]);

    zfree(ptr);
}

#[test]
fn zmem_alloc_with_size() {
    let (ptr, size) = zmalloc(6);
    assert!(!ptr.is_null());
    assert_eq!(size, 8);
    assert_eq!(zmem_size_of(&ptr), 8);

    zfree(ptr);
}

#[test]
fn zmem_calloc_with_size() {
    let (ptr, size) = zcalloc(8);
    assert!(!ptr.is_null());
    assert_eq!(size, 8);
    assert_eq!(zmem_size_of(&ptr), 8);
    assert_eq!(ptr.body_prefix(8), &[0u8; 8][..]);

    zfree(ptr);
}

#[test]
fn zmem_realloc_with_size() {
    let (ptr, size) = zmalloc(8);
    assert!(!ptr.is_null());
    assert_eq!(size, 8);
    assert_eq!(zmem_size_of(&ptr), 8);

    let (ptr, size) = zrealloc(ptr, 16);
    assert!(!ptr.is_null());
    assert_eq!(size, 16);
    assert_eq!(zmem_size_of(&ptr), 16);

    zfree(ptr);
}

#[test]
fn zmem_realloc_for_null_pointer() {
    let (ptr, size) = zrealloc(rmem::ZPtr::null(), 8);
    assert!(!ptr.is_null());
    assert_eq!(size, 8);
    assert_eq!(zmem_size_of(&ptr), 8);

    zfree(ptr);
}

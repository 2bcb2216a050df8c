{% if partial %}
{% for note in notes %}
<div data-note-id="{{ note.id }}" data-title="{{ note.title|e }}" data-search="{{ note.search_text|e }}" onclick="openNote({{ note.id }})"
class="p-3 rounded-lg hover:bg-muted cursor-pointer transition-colors flex gap-3 items-start justify-between">
<div class="flex-1 min-w-0">
<p class="note-title text-sm font-medium text-foreground truncate flex items-center gap-1.5">
{{ note.title }}
{% if note.visibility == 'public' %}
<svg class="w-3.5 h-3.5 text-green-600 dark:text-green-400 shrink-0" fill="none" stroke="currentColor" viewBox="0 0 24 24"><path stroke-linecap="round" stroke-linejoin="round" stroke-width="2" d="M3.055 11H5a2 2 0 012 2v1a2 2 0 002 2 2 2 0 012 2v2.945M8 3.935V5.5A2.5 2.5 0 0010.5 8h.5a2 2 0 012 2 2 2 0 104 0 2 2 0 012-2h1.064M15 20.488V18a2 2 0 012-2h3.064M21 12a9 9 0 11-18 0 9 9 0 0118 0z"/></svg>
{% elif note.visibility == 'protected' %}
<svg class="w-3.5 h-3.5 text-amber-600 dark:text-amber-400 shrink-0" fill="none" stroke="currentColor" viewBox="0 0 24 24"><rect x="3" y="11" width="18" height="11" rx="2" stroke-width="2"/><path d="M7 11V7a5 5 0 0110 0v4" stroke-width="2"/></svg>
{% endif %}
</p>
<p class="text-xs text-muted-fg mt-0.5">{{ note.created_at }}</p>
{% if note.tags %}
<div class="flex flex-wrap gap-1 mt-1.5">
{% for tag in note.tags %}
<span class="inline-block px-1.5 py-0.5 text-[10px] font-medium rounded bg-accent-50 dark:bg-accent-900/20 text-accent-600 dark:text-accent-500">#{{ tag }}</span>
{% endfor %}
</div>
{% endif %}
</div>
{% if note.first_image_id %}
<div class="w-12 h-12 rounded-lg overflow-hidden border border-border shrink-0 bg-muted dark:bg-muted">
<img src="/resources/{{ note.first_image_id }}" class="w-full h-full object-cover" loading="lazy">
</div>
{% endif %}
</div>
{% endfor %}
{% if next_offset %}
<div id="sentinel-notes-{{ offset }}" class="h-4"
hx-get="/notes-panel?offset={{ next_offset }}"
hx-trigger="revealed"
hx-swap="outerHTML"></div>
{% endif %}
{% else %}
<div class="flex flex-col h-full">
<div class="px-4 py-3 border-b border-border flex-shrink-0">
<h2 class="text-xs font-semibold text-muted-fg uppercase tracking-wider">Notes</h2>
</div>
<div class="px-3 pt-3 pb-2 flex-shrink-0">
<input type="text" name="q" placeholder="Search notes..."
hx-get="/search"
hx-target="#timeline"
hx-swap="innerHTML"
hx-trigger="keyup changed delay:400ms, search"
hx-on::before-request="if (this.value === '') { event.detail.pathInfo.requestPath = '/memos-feed' }"
oninput="debouncedFilterSidebar(this.value)"
class="w-full px-3 py-1.5 bg-card border border-border rounded-lg text-sm text-foreground placeholder-muted-fg focus:outline-none focus:ring-2 focus:ring-accent-500 focus:border-transparent transition-all" />
</div>
<div class="flex-1 overflow-y-auto p-2 space-y-1" id="notes-list-container">
{% if notes %}
{% for note in notes %}
<div data-note-id="{{ note.id }}" data-title="{{ note.title|e }}" data-search="{{ note.search_text|e }}" onclick="openNote({{ note.id }})"
class="p-3 rounded-lg hover:bg-muted cursor-pointer transition-colors flex gap-3 items-start justify-between">
<div class="flex-1 min-w-0">
<p class="note-title text-sm font-medium text-foreground truncate flex items-center gap-1.5">
{{ note.title }}
{% if note.visibility == 'public' %}
<svg class="w-3.5 h-3.5 text-green-600 dark:text-green-400 shrink-0" fill="none" stroke="currentColor" viewBox="0 0 24 24"><path stroke-linecap="round" stroke-linejoin="round" stroke-width="2" d="M3.055 11H5a2 2 0 012 2v1a2 2 0 002 2 2 2 0 012 2v2.945M8 3.935V5.5A2.5 2.5 0 0010.5 8h.5a2 2 0 012 2 2 2 0 104 0 2 2 0 012-2h1.064M15 20.488V18a2 2 0 012-2h3.064M21 12a9 9 0 11-18 0 9 9 0 0118 0z"/></svg>
{% elif note.visibility == 'protected' %}
<svg class="w-3.5 h-3.5 text-amber-600 dark:text-amber-400 shrink-0" fill="none" stroke="currentColor" viewBox="0 0 24 24"><rect x="3" y="11" width="18" height="11" rx="2" stroke-width="2"/><path d="M7 11V7a5 5 0 0110 0v4" stroke-width="2"/></svg>
{% endif %}
</p>
<p class="text-xs text-muted-fg mt-0.5">{{ note.created_at }}</p>
{% if note.tags %}
<div class="flex flex-wrap gap-1 mt-1.5">
{% for tag in note.tags %}
<span class="inline-block px-1.5 py-0.5 text-[10px] font-medium rounded bg-accent-50 dark:bg-accent-900/20 text-accent-600 dark:text-accent-500">#{{ tag }}</span>
{% endfor %}
</div>
{% endif %}
</div>
{% if note.first_image_id %}
<div class="w-12 h-12 rounded-lg overflow-hidden border border-border shrink-0 bg-muted dark:bg-muted">
<img src="/resources/{{ note.first_image_id }}" class="w-full h-full object-cover" loading="lazy">
</div>
{% endif %}
</div>
{% endfor %}
{% else %}
<p class="text-sm text-muted-fg p-3 text-center">No notes yet</p>
{% endif %}
{% if next_offset %}
<div id="sentinel-notes-{{ offset }}" class="h-4"
hx-get="/notes-panel?offset={{ next_offset }}"
hx-trigger="revealed"
hx-swap="outerHTML"></div>
{% endif %}
</div>
</div>
{% endif %}